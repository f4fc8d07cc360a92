//! The playing field: a grid of cells stored row by row, top row first.

use vstd::prelude::*;
use crate::block::{BlockType, WIDTH, HEIGHT};

verus! {

/// A field as a mathematical grid: a sequence of rows, top row first.
pub type Grid = Seq<Seq<BlockType>>;

/// The grid that a stored field holds.
pub open spec fn grid(f: &Vec<Vec<BlockType>>) -> Grid {
    f@.map_values(|r: Vec<BlockType>| r@)
}

/// A row of `w` empty cells.
pub open spec fn empty_row(w: int) -> Seq<BlockType> {
    Seq::new(w as nat, |j: int| BlockType::Empty)
}

/// A grid of `h` rows of `w` empty cells.
pub open spec fn empty_grid(h: int, w: int) -> Grid {
    Seq::new(h as nat, |i: int| empty_row(w))
}

/// A grid of integers as a sequence of rows.
pub open spec fn int_grid(v: &Vec<Vec<i64>>) -> Seq<Seq<i64>> {
    v@.map_values(|r: Vec<i64>| r@)
}

/// The field that a grid of integers describes: as many rows as the grid and
/// as many columns as its first row, an obstruction wherever the grid holds 1
/// and an empty cell elsewhere.
pub open spec fn translated(v: Seq<Seq<i64>>) -> Grid {
    Seq::new(
        v.len(),
        |i: int|
            Seq::new(
                v[0].len(),
                |j: int|
                    if j < v[i].len() && v[i][j] == 1 {
                        BlockType::Obstruction
                    } else {
                        BlockType::Empty
                    },
            ),
    )
}

/// The grid with every cell of the falling piece emptied.
pub open spec fn without_motion(g: Grid) -> Grid {
    g.map_values(
        |row: Seq<BlockType>|
            row.map_values(|b: BlockType| if b is MinoInMotion { BlockType::Empty } else { b }),
    )
}

/// The grid with every ghost cell emptied.
pub open spec fn without_ghosts(g: Grid) -> Grid {
    g.map_values(
        |row: Seq<BlockType>|
            row.map_values(|b: BlockType| if b is GhostBlock { BlockType::Empty } else { b }),
    )
}

/// Whether every cell of a row stops a moving piece.
pub open spec fn row_full(row: Seq<BlockType>) -> bool {
    forall|j: int| 0 <= j < row.len() ==> #[trigger] row[j].collides()
}

/// `n` empty rows of the standard width.
pub open spec fn blank_rows(n: int) -> Grid {
    Seq::new(n as nat, |i: int| empty_row(WIDTH as int))
}

/// The rows of a grid that are not full, in their order.
pub open spec fn kept_rows(g: Grid) -> Grid {
    g.filter(|row: Seq<BlockType>| !row_full(row))
}

/// The grid after line clearing: every full row removed, the rows above it
/// moved down, and as many empty rows of the standard width added on top.
pub open spec fn cleared_lines(g: Grid) -> Grid {
    blank_rows(g.len() - kept_rows(g).len()) + kept_rows(g)
}

/// The number of locked cells in a row.
pub open spec fn row_locked(row: Seq<BlockType>) -> nat
    decreases row.len(),
{
    if row.len() == 0 {
        0
    } else {
        row_locked(row.drop_last()) + if row.last() is MinoBlock {
            1nat
        } else {
            0nat
        }
    }
}

/// The number of locked cells in a grid.
pub open spec fn locked_count(g: Grid) -> nat
    decreases g.len(),
{
    if g.len() == 0 {
        0
    } else {
        locked_count(g.drop_last()) + row_locked(g.last())
    }
}

/// The number of cells of the falling piece in a row.
pub open spec fn row_falling(row: Seq<BlockType>) -> nat
    decreases row.len(),
{
    if row.len() == 0 {
        0
    } else {
        row_falling(row.drop_last()) + if row.last() is MinoInMotion {
            1nat
        } else {
            0nat
        }
    }
}

/// The number of cells of the falling piece in a grid.
pub open spec fn falling_count(g: Grid) -> nat
    decreases g.len(),
{
    if g.len() == 0 {
        0
    } else {
        falling_count(g.drop_last()) + row_falling(g.last())
    }
}

/// A row of `w` empty cells.
fn empty_row_vec(w: usize) -> (r: Vec<BlockType>)
    ensures
        r@ == empty_row(w as int),
{
    let mut r: Vec<BlockType> = Vec::new();
    for j in 0..w
        invariant
            r@ == empty_row(j as int),
    {
        r.push(BlockType::Empty);
    }
    r
}

impl BlockType {
    /// A field of `height` rows of `width` empty cells (a game's field is
    /// `HEIGHT` rows of `WIDTH` cells).
    pub fn create_empty_field(width: usize, height: usize) -> (f: Vec<Vec<BlockType>>)
        ensures
            grid(&f) == empty_grid(height as int, width as int),
    {
        let mut f: Vec<Vec<BlockType>> = Vec::new();
        for i in 0..height
            invariant
                f@.len() == i,
                forall|k: int| 0 <= k < i ==> #[trigger] f@[k]@ == empty_row(width as int),
        {
            let row = empty_row_vec(width);
            f.push(row);
        }
        assert(grid(&f) =~= empty_grid(height as int, width as int));
        f
    }

    /// The field that a grid of 0s and 1s describes, with obstructions at the 1s.
    pub fn translation(vec: Vec<Vec<i64>>) -> (f: Vec<Vec<BlockType>>)
        requires
            vec@.len() > 0,
        ensures
            grid(&f) == translated(int_grid(&vec)),
    {
        let ghost v = int_grid(&vec);
        let w = vec[0].len();
        let mut f: Vec<Vec<BlockType>> = Vec::new();
        for i in 0..vec.len()
            invariant
                v == int_grid(&vec),
                w == v[0].len(),
                f@.len() == i,
                v.len() == vec@.len(),
                forall|k: int| 0 <= k < i ==> #[trigger] f@[k]@ == translated(v)[k],
        {
            let src = &vec[i];
            let mut row: Vec<BlockType> = Vec::new();
            for j in 0..w
                invariant
                    v == int_grid(&vec),
                    v.len() == vec@.len(),
                    w == v[0].len(),
                    i < v.len(),
                    src@ == v[i as int],
                    row@.len() == j,
                    forall|m: int| 0 <= m < j ==> #[trigger] row@[m] == translated(v)[i as int][m],
            {
                if j < src.len() && src[j] == 1 {
                    row.push(BlockType::Obstruction);
                } else {
                    row.push(BlockType::Empty);
                }
            }
            assert(row@ =~= translated(v)[i as int]);
            f.push(row);
        }
        assert(grid(&f) =~= translated(v));
        f
    }
}

/// A copy of a field.
pub fn copy_grid(f: &Vec<Vec<BlockType>>) -> (c: Vec<Vec<BlockType>>)
    ensures
        grid(&c) == grid(f),
{
    let mut c: Vec<Vec<BlockType>> = Vec::new();
    for i in 0..f.len()
        invariant
            c@.len() == i,
            forall|k: int| 0 <= k < i ==> #[trigger] c@[k]@ == f@[k]@,
    {
        let src = &f[i];
        let mut row: Vec<BlockType> = Vec::new();
        for j in 0..src.len()
            invariant
                row@ == src@.subrange(0, j as int),
        {
            row.push(src[j]);
            assert(row@ =~= src@.subrange(0, j + 1));
        }
        assert(row@ =~= src@);
        c.push(row);
    }
    assert(grid(&c) =~= grid(f));
    c
}

/// Whether two fields hold the same cells.
pub fn same_grid(a: &Vec<Vec<BlockType>>, b: &Vec<Vec<BlockType>>) -> (r: bool)
    ensures
        r == (grid(a) == grid(b)),
{
    if a.len() != b.len() {
        assert(grid(a).len() != grid(b).len());
        return false;
    }
    for i in 0..a.len()
        invariant
            a@.len() == b@.len(),
            forall|k: int| 0 <= k < i ==> #[trigger] grid(a)[k] == grid(b)[k],
    {
        let ra = &a[i];
        let rb = &b[i];
        if ra.len() != rb.len() {
            assert(grid(a)[i as int].len() != grid(b)[i as int].len());
            return false;
        }
        for j in 0..ra.len()
            invariant
                ra@.len() == rb@.len(),
                ra@ == grid(a)[i as int],
                rb@ == grid(b)[i as int],
                forall|m: int| 0 <= m < j ==> #[trigger] ra@[m] == rb@[m],
        {
            if ra[j] != rb[j] {
                assert(grid(a)[i as int][j as int] != grid(b)[i as int][j as int]);
                return false;
            }
        }
        assert(ra@ =~= rb@);
    }
    assert(grid(a) =~= grid(b));
    true
}

/// A copy of a field in which the cells of the falling piece are empty.
pub fn erase_motion(f: &Vec<Vec<BlockType>>) -> (c: Vec<Vec<BlockType>>)
    ensures
        grid(&c) == without_motion(grid(f)),
{
    let mut c: Vec<Vec<BlockType>> = Vec::new();
    for i in 0..f.len()
        invariant
            c@.len() == i,
            forall|k: int| 0 <= k < i ==> #[trigger] c@[k]@ == without_motion(grid(f))[k],
    {
        let src = &f[i];
        let mut row: Vec<BlockType> = Vec::new();
        for j in 0..src.len()
            invariant
                i < f@.len(),
                src@ == grid(f)[i as int],
                row@.len() == j,
                forall|m: int| 0 <= m < j ==> #[trigger] row@[m] == without_motion(grid(f))[i as int][m],
        {
            let b = src[j];
            match b {
                BlockType::MinoInMotion(_) => row.push(BlockType::Empty),
                _ => row.push(b),
            }
        }
        assert(row@ =~= without_motion(grid(f))[i as int]);
        c.push(row);
    }
    assert(grid(&c) =~= without_motion(grid(f)));
    c
}

/// A copy of a field in which the ghost cells are empty.
pub fn erase_ghosts(f: &Vec<Vec<BlockType>>) -> (c: Vec<Vec<BlockType>>)
    ensures
        grid(&c) == without_ghosts(grid(f)),
{
    let mut c: Vec<Vec<BlockType>> = Vec::new();
    for i in 0..f.len()
        invariant
            c@.len() == i,
            forall|k: int| 0 <= k < i ==> #[trigger] c@[k]@ == without_ghosts(grid(f))[k],
    {
        let src = &f[i];
        let mut row: Vec<BlockType> = Vec::new();
        for j in 0..src.len()
            invariant
                i < f@.len(),
                src@ == grid(f)[i as int],
                row@.len() == j,
                forall|m: int| 0 <= m < j ==> #[trigger] row@[m] == without_ghosts(grid(f))[i as int][m],
        {
            let b = src[j];
            match b {
                BlockType::GhostBlock(_) => row.push(BlockType::Empty),
                _ => row.push(b),
            }
        }
        assert(row@ =~= without_ghosts(grid(f))[i as int]);
        c.push(row);
    }
    assert(grid(&c) =~= without_ghosts(grid(f)));
    c
}

/// Whether every cell of a row stops a moving piece.
pub fn is_row_full(row: &Vec<BlockType>) -> (r: bool)
    ensures
        r == row_full(row@),
{
    for j in 0..row.len()
        invariant
            forall|m: int| 0 <= m < j ==> #[trigger] row@[m].collides(),
    {
        if !row[j].has_collision_detection() {
            return false;
        }
    }
    true
}

/// Taking one more row into account adds it to the kept rows unless it is full.
proof fn lemma_kept_step(g: Grid, i: int)
    requires
        0 <= i < g.len(),
    ensures
        kept_rows(g.take(i + 1)) == (if row_full(g[i]) {
            kept_rows(g.take(i))
        } else {
            kept_rows(g.take(i)).push(g[i])
        }),
        kept_rows(g.take(i)).len() <= i,
{
    reveal(Seq::filter);
    assert(g.take(i + 1).drop_last() =~= g.take(i));
    assert(g.take(i + 1).last() == g[i]);
    g.take(i).lemma_filter_len(|row: Seq<BlockType>| !row_full(row));
}

/// Removes every full row of the field, moving the rows above it down and
/// adding an empty row of the standard width on top for each one removed.
pub fn clear_lines(field: &mut Vec<Vec<BlockType>>)
    ensures
        grid(final(field)) == cleared_lines(grid(old(field))),
{
    let ghost snap = grid(field);
    let n = field.len();
    for i in 0..n
        invariant
            n == snap.len(),
            field@.len() == n,
            grid(field) == blank_rows(i - kept_rows(snap.take(i as int)).len()) + kept_rows(
                snap.take(i as int),
            ) + snap.skip(i as int),
    {
        let ghost kept = kept_rows(snap.take(i as int));
        proof {
            lemma_kept_step(snap, i as int);
            assert(grid(field)[i as int] == snap[i as int]);
        }
        let full = is_row_full(&field[i]);
        if full {
            let ghost before = grid(field);
            let ghost b = i - kept.len();
            field.remove(i);
            assert(grid(field) =~= before.remove(i as int));
            assert(before.remove(i as int) =~= blank_rows(b) + kept + snap.skip(i + 1));
            let ghost mid = grid(field);
            let row = empty_row_vec(WIDTH);
            field.insert(0, row);
            assert(grid(field) =~= mid.insert(0, empty_row(WIDTH as int)));
            assert(mid.insert(0, empty_row(WIDTH as int)) =~= blank_rows(b + 1) + kept + snap.skip(
                i + 1,
            ));
        } else {
            assert(grid(field) =~= blank_rows(i + 1 - kept.push(snap[i as int]).len()) + kept.push(
                snap[i as int],
            ) + snap.skip(i + 1));
        }
    }
    assert(snap.take(n as int) =~= snap);
    assert(grid(field) =~= cleared_lines(snap));
}

/// The character that draws a cell in text: a filled diamond for the falling
/// piece, an empty square for an empty cell, a filled square for a wall, an
/// obstruction or a locked block, and an empty diamond for the ghost.
pub open spec fn glyph(b: BlockType) -> Seq<char> {
    match b {
        BlockType::MinoInMotion(_) => "\u{25c6}"@,
        BlockType::Empty => "\u{25a1}"@,
        BlockType::Wall => "\u{25a0}"@,
        BlockType::Obstruction => "\u{25a0}"@,
        BlockType::MinoBlock(_) => "\u{25a0}"@,
        BlockType::GhostBlock(_) => "\u{25c7}"@,
    }
}

/// A row drawn in text, one character per cell.
pub open spec fn render_row(row: Seq<BlockType>) -> Seq<char>
    decreases row.len(),
{
    if row.len() == 0 {
        Seq::empty()
    } else {
        render_row(row.drop_last()) + glyph(row.last())
    }
}

/// A grid drawn in text, each row followed by a line break.
pub open spec fn render_grid(g: Grid) -> Seq<char>
    decreases g.len(),
{
    if g.len() == 0 {
        Seq::empty()
    } else {
        render_grid(g.drop_last()) + render_row(g.last()) + "\n"@
    }
}

fn push_glyph(a: &mut String, b: BlockType)
    ensures
        final(a)@ == old(a)@ + glyph(b),
{
    match b {
        BlockType::MinoInMotion(_) => a.append("\u{25c6}"),
        BlockType::Empty => a.append("\u{25a1}"),
        BlockType::Wall => a.append("\u{25a0}"),
        BlockType::Obstruction => a.append("\u{25a0}"),
        BlockType::MinoBlock(_) => a.append("\u{25a0}"),
        BlockType::GhostBlock(_) => a.append("\u{25c7}"),
    }
}

/// The field drawn in text, one line per row.
pub fn human_can(f: &Vec<Vec<BlockType>>) -> (s: String)
    ensures
        s@ == render_grid(grid(f)),
{
    let mut a = String::new();
    for i in 0..f.len()
        invariant
            a@ == render_grid(grid(f).take(i as int)),
    {
        let row = &f[i];
        let ghost before = a@;
        for j in 0..row.len()
            invariant
                i < f@.len(),
                row@ == grid(f)[i as int],
                a@ == before + render_row(row@.take(j as int)),
        {
            push_glyph(&mut a, row[j]);
            assert(row@.take(j + 1).drop_last() =~= row@.take(j as int));
        }
        assert(row@.take(row@.len() as int) =~= row@);
        a.append("\n");
        assert(grid(f).take(i + 1).drop_last() =~= grid(f).take(i as int));
    }
    assert(grid(f).take(f@.len() as int) =~= grid(f));
    a
}

/// A field of the standard size: `HEIGHT` rows of `WIDTH` cells.
pub open spec fn standard_shape(g: Grid) -> bool {
    &&& g.len() == HEIGHT
    &&& forall|i: int| 0 <= i < g.len() ==> #[trigger] g[i].len() == WIDTH
}

/// Line clearing keeps a field of the standard size at that size.
pub proof fn lemma_cleared_shape(g: Grid)
    requires
        standard_shape(g),
    ensures
        standard_shape(cleared_lines(g)),
{
    let p = |row: Seq<BlockType>| !row_full(row);
    let kept = kept_rows(g);
    g.lemma_filter_len(p);
    let c = cleared_lines(g);
    let b = g.len() - kept.len();
    assert forall|i: int| 0 <= i < c.len() implies #[trigger] c[i].len() == WIDTH by {
        if i >= b {
            let row = kept[i - b];
            assert(kept.contains(row));
            g.lemma_filter_contains_rev(p, row);
            let j = choose|j: int| 0 <= j < g.len() && g[j] == row;
            assert(g[j].len() == WIDTH);
        }
    }
}

/// A fresh field has the standard size.
pub proof fn lemma_empty_shape()
    ensures
        standard_shape(empty_grid(HEIGHT as int, WIDTH as int)),
{
}

} // verus!
