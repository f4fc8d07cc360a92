//! Properties of the game that span several operations, proved over the
//! specifications that the operations' contracts use.

use vstd::prelude::*;
use crate::block::{
    APPEARANCE_X, APPEARANCE_Y, HEIGHT, WIDTH, BlockType, KeyStatePlus, KeyType, MinoDirection, MinoState,
    MinoType, MoveMessage, key_index,
};
use crate::field::{
    Grid, blank_rows, cleared_lines, empty_grid, empty_row, falling_count, kept_rows, locked_count, row_falling,
    row_full, row_locked, without_ghosts, without_motion,
};
use crate::mino::{
    MinoView, default_mino_in, fits, in_field, landing_y, lemma_first_kick, lemma_shape_has_inner_cell,
    piece_block, placed, same_dims, spawned,
};
use crate::shapes::{kick_table, target_direction};
use crate::shapes::shape_cell;
use crate::block::RotationType;
use crate::generator::{bag_at, extends_by_bags, is_bag, is_bags, lemma_bags_concat};
use crate::manager::{
    GameView, initial_game, lemma_fits_empty, arr_phase, das_phase, gravity_phase, soft_drop_phase, before_hold, deal, early_keys, frame, ghost_phase, holds_now, judge_phases, key_draws,
    key_phase, keys_part, limit_draws, limit_phase, lock_draws, lock_phase, locks_part, opt_seq,
    spawn_phase,
};

verus! {

/// Two grids of the same dimensions in which the same cells stop a moving piece.
pub open spec fn same_collisions(a: Grid, b: Grid) -> bool {
    &&& same_dims(a, b)
    &&& forall|i: int, j: int| #[trigger] in_field(a, i, j) ==> a[i][j].collides() == b[i][j].collides()
}

/// Where pieces fit depends only on which cells stop them.
pub proof fn lemma_fits_same_collisions(a: Grid, b: Grid, t: MinoType, d: MinoDirection, x: int, y: int)
    requires
        same_collisions(a, b),
    ensures
        fits(a, t, d, x, y) == fits(b, t, d, x, y),
{
    if fits(a, t, d, x, y) {
        assert forall|r: int, c: int| #[trigger] shape_cell(t, d, r, c) implies in_field(b, y + r, x + c)
            && !b[y + r][x + c].collides() by {
            assert(in_field(a, y + r, x + c));
        }
    }
    if fits(b, t, d, x, y) {
        assert forall|r: int, c: int| #[trigger] shape_cell(t, d, r, c) implies in_field(a, y + r, x + c)
            && !a[y + r][x + c].collides() by {
            assert(in_field(b, y + r, x + c));
            assert(in_field(a, y + r, x + c));
        }
    }
}

/// The row at which a piece lands depends only on which cells stop it.
pub proof fn lemma_landing_same_collisions(a: Grid, b: Grid, t: MinoType, d: MinoDirection, x: int, y: int)
    requires
        same_collisions(a, b),
    ensures
        landing_y(a, t, d, x, y) == landing_y(b, t, d, x, y),
    decreases a.len() - y,
{
    lemma_fits_same_collisions(a, b, t, d, x, y + 1);
    if fits(a, t, d, x, y + 1) {
        lemma_shape_has_inner_cell(t, d);
        lemma_landing_same_collisions(a, b, t, d, x, y + 1);
    }
}

/// Moving a falling (not locked) piece to a place where it fits does not
/// change which cells stop a moving piece.
pub proof fn lemma_move_keeps_collisions(m: MinoView, x: int, y: int, d: MinoDirection)
    requires
        m.state == MinoState::InMotion,
        m.can_place(x, y, d),
    ensures
        same_collisions(m.moved_to(x, y, d).field, m.field),
{
    let g = m.field;
    let h = m.moved_to(x, y, d).field;
    assert(same_dims(h, g)) by {
        assert forall|i: int| 0 <= i < h.len() implies #[trigger] h[i].len() == g[i].len() by {
            assert(without_motion(g)[i].len() == g[i].len());
        }
    }
    assert forall|i: int, j: int| #[trigger] in_field(h, i, j) implies h[i][j].collides() == g[i][j].collides() by {
        if shape_cell(m.mino_type, d, i - y, j - x) {
            assert(in_field(g, y + (i - y), x + (j - x)));
        } else {
            assert(without_motion(g)[i][j] == (if g[i][j] is MinoInMotion {
                BlockType::Empty
            } else {
                g[i][j]
            }));
        }
    }
}

/// A hard drop keeps the piece's column, direction, kind and state, and
/// leaves it resting on something: it cannot move down one more row.
pub proof fn law_hard_drop_rests(m: MinoView)
    ensures
        m.hard_dropped().x == m.x,
        m.hard_dropped().direction == m.direction,
        m.hard_dropped().mino_type == m.mino_type,
        m.hard_dropped().state == m.state,
        m.hard_dropped().y >= m.y,
        !m.hard_dropped().can_place(m.x, m.hard_dropped().y + 1, m.direction),
    decreases m.field.len() - m.y,
{
    if m.can_place(m.x, m.y + 1, m.direction) {
        lemma_shape_has_inner_cell(m.mino_type, m.direction);
        law_hard_drop_rests(m.moved_to(m.x, m.y + 1, m.direction));
    }
}

/// The ghost shows where a hard drop puts a falling piece: the row a hard
/// drop brings the piece to is the row at which the ghost is drawn.
pub proof fn law_ghost_marks_hard_drop(m: MinoView)
    requires
        m.state == MinoState::InMotion,
    ensures
        m.hard_dropped().y == landing_y(m.field, m.mino_type, m.direction, m.x, m.y),
    decreases m.field.len() - m.y,
{
    if m.can_place(m.x, m.y + 1, m.direction) {
        lemma_shape_has_inner_cell(m.mino_type, m.direction);
        let n = m.moved_to(m.x, m.y + 1, m.direction);
        law_ghost_marks_hard_drop(n);
        lemma_move_keeps_collisions(m, m.x, m.y + 1, m.direction);
        lemma_landing_same_collisions(n.field, m.field, m.mino_type, m.direction, m.x, m.y + 1);
    }
}

/// A move request that fails leaves the piece as it was; only a failed lock
/// still marks the piece locked.
pub proof fn law_failed_move_keeps(m: MinoView, msg: MoveMessage)
    ensures
        !m.moved(msg).1 && msg != MoveMessage::Fix ==> m.moved(msg).0 == m,
        !m.moved(msg).1 && msg == MoveMessage::Fix ==> m.moved(msg).0 == (MinoView {
            state: MinoState::Fixed,
            ..m
        }),
{
}

/// A falling piece drawn where it stands that is moved to another place where
/// it fits can be moved straight back; it is then where it was, and the field
/// is as before except that ghost cells it passed over are emptied.
pub proof fn law_move_back(m: MinoView, x: int, y: int, d: MinoDirection)
    requires
        m.state == MinoState::InMotion,
        m.placed_within(),
        m.field == placed(m.field, m.mino_type, m.direction, m.x, m.y, MinoState::InMotion),
        m.can_place(x, y, d),
    ensures
        m.moved_to(x, y, d).can_place(m.x, m.y, m.direction),
        m.moved_to(x, y, d).moved_to(m.x, m.y, m.direction).x == m.x,
        m.moved_to(x, y, d).moved_to(m.x, m.y, m.direction).y == m.y,
        m.moved_to(x, y, d).moved_to(m.x, m.y, m.direction).direction == m.direction,
        without_ghosts(m.moved_to(x, y, d).moved_to(m.x, m.y, m.direction).field) == without_ghosts(
            m.field,
        ),
{
    let g = m.field;
    let t = m.mino_type;
    let blk = piece_block(MinoState::InMotion, t);
    let n = m.moved_to(x, y, d);
    let back = n.moved_to(m.x, m.y, m.direction);
    assert(fits(g, t, m.direction, m.x, m.y)) by {
        assert forall|r: int, c: int| #[trigger] shape_cell(t, m.direction, r, c) implies in_field(
            g,
            m.y + r,
            m.x + c,
        ) && !g[m.y + r][m.x + c].collides() by {
            assert(in_field(g, m.y + r, m.x + c));
            assert(g[m.y + r][m.x + c] == blk);
        }
    }
    lemma_move_keeps_collisions(m, x, y, d);
    lemma_fits_same_collisions(n.field, g, t, m.direction, m.x, m.y);
    let a = without_ghosts(back.field);
    let b = without_ghosts(g);
    assert(same_dims(n.field, g));
    assert forall|i: int| 0 <= i < a.len() implies #[trigger] a[i] =~= b[i] by {
        assert(n.field[i].len() == g[i].len());
        assert forall|j: int| 0 <= j < a[i].len() implies a[i][j] == b[i][j] by {
            if shape_cell(t, m.direction, i - m.y, j - m.x) {
            } else if shape_cell(t, d, i - y, j - x) {
                assert(in_field(g, y + (i - y), x + (j - x)));
            } else {
            }
        }
    }
    assert(a =~= b);
}

/// After line clearing no row of a field of rows of the standard width is
/// full, and the field keeps its number of rows.
pub proof fn law_cleared_has_no_full_row(g: Grid)
    ensures
        cleared_lines(g).len() == g.len(),
        forall|i: int| 0 <= i < cleared_lines(g).len() ==> !row_full(#[trigger] cleared_lines(g)[i]),
{
    let p = |row: Seq<BlockType>| !row_full(row);
    g.lemma_filter_len(p);
    let kept = kept_rows(g);
    let b = g.len() - kept.len();
    assert forall|i: int| 0 <= i < cleared_lines(g).len() implies !row_full(#[trigger] cleared_lines(g)[i]) by {
        if i < b {
            assert(cleared_lines(g)[i] == blank_rows(b)[i]);
            assert(!blank_rows(b)[i][0].collides());
        } else {
            g.lemma_filter_pred(p, i - b);
        }
    }
}

/// A frame leaves a finished game as it is and deals no piece.
pub proof fn law_finished_stays(g: GameView, now: u64, stream: Seq<MinoType>)
    requires
        g.is_finished,
    ensures
        frame(g, now, stream) == (g, 0int),
{
}

/// Once a piece has been held, the hold key does nothing until the next
/// piece enters, except that a fresh press is marked handled.
pub proof fn law_hold_once(g: GameView, now: u64, drawn: Option<MinoType>)
    requires
        g.is_hold_executed,
    ensures
        key_phase(g, KeyType::Hold, now, drawn) == (GameView {
            keys: if g.keys[7] == KeyStatePlus::DownUnprocessed {
                g.keys.update(7, KeyStatePlus::DownProcessed)
            } else {
                g.keys
            },
            ..g
        }),
{
    reveal(key_phase);
}

/// A key phase marks its key handled if it was pressed and not yet handled,
/// and changes no other key.
proof fn lemma_key_phase_keys(g: GameView, key: KeyType, now: u64, drawn: Option<MinoType>)
    ensures
        key_phase(g, key, now, drawn).keys == (if g.keys[key_index(key)] == KeyStatePlus::DownUnprocessed {
            g.keys.update(key_index(key), KeyStatePlus::DownProcessed)
        } else {
            g.keys
        }),
{
    reveal(key_phase);
}

/// The phases of a frame after the keys leave the key states and the held
/// piece as they are.
proof fn lemma_later_phases_keep_keys(
    g: GameView,
    now: u64,
    dl: Option<MinoType>,
    dm: Option<MinoType>,
    start: Grid,
    held: bool,
)
    ensures
        spawn_phase(ghost_phase(locks_part(g, now, dl, dm), start), held).keys == g.keys,
        spawn_phase(ghost_phase(locks_part(g, now, dl, dm), start), held).hold == g.hold,
{
    reveal(judge_phases);
    reveal(lock_phase);
    reveal(limit_phase);
    reveal(ghost_phase);
    reveal(spawn_phase);
}

/// A frame of a game that is not finished handles every key: a key pressed
/// and not yet handled is marked handled, and every other key state stays.
pub proof fn law_frame_handles_keys(g: GameView, now: u64, stream: Seq<MinoType>)
    requires
        !g.is_finished,
        g.keys.len() == 8,
    ensures
        frame(g, now, stream).0.keys == g.keys.map_values(
            |k: KeyStatePlus|
                if k == KeyStatePlus::DownUnprocessed {
                    KeyStatePlus::DownProcessed
                } else {
                    k
                },
        ),
{
    let g1 = key_phase(g, KeyType::Left, now, None);
    let g2 = key_phase(g1, KeyType::Right, now, None);
    let g3 = key_phase(g2, KeyType::RotateRight, now, None);
    let g4 = key_phase(g3, KeyType::RotateLeft, now, None);
    let g5 = key_phase(g4, KeyType::Rotate180, now, None);
    lemma_key_phase_keys(g, KeyType::Left, now, None);
    lemma_key_phase_keys(g1, KeyType::Right, now, None);
    lemma_key_phase_keys(g2, KeyType::RotateRight, now, None);
    lemma_key_phase_keys(g3, KeyType::RotateLeft, now, None);
    lemma_key_phase_keys(g4, KeyType::Rotate180, now, None);
    assert(early_keys(g, now) == g5);
    let r = frame(g, now, stream);
    let dh = if key_draws(g5, KeyType::HardDrop) {
        Some(stream[0])
    } else {
        None
    };
    let g6 = key_phase(g5, KeyType::HardDrop, now, dh);
    lemma_key_phase_keys(g5, KeyType::HardDrop, now, dh);
    let g7 = key_phase(g6, KeyType::SoftDrop, now, None);
    lemma_key_phase_keys(g6, KeyType::SoftDrop, now, None);
    assert(before_hold(g, now, dh) == g7);
    let k1 = opt_seq(dh).len() as int;
    let dd = deal(key_draws(g7, KeyType::Hold), stream, k1);
    let g8 = key_phase(g7, KeyType::Hold, now, dd);
    lemma_key_phase_keys(g7, KeyType::Hold, now, dd);
    assert(keys_part(g, now, dh, dd) == g8);
    let k2 = k1 + opt_seq(dd).len();
    let g9 = judge_phases(g8, now);
    let dl = deal(lock_draws(g9, now), stream, k2);
    let k3 = k2 + opt_seq(dl).len();
    let dm = deal(limit_draws(lock_phase(g9, now, dl)), stream, k3);
    lemma_later_phases_keep_keys(g8, now, dl, dm, g.mino.field, holds_now(g7));
    assert(r.0.keys =~= g.keys.map_values(
        |k: KeyStatePlus|
            if k == KeyStatePlus::DownUnprocessed {
                KeyStatePlus::DownProcessed
            } else {
                k
            },
    ));
}


/// The piece after a run of move requests, one after another.
pub open spec fn after_moves(m: MinoView, msgs: Seq<MoveMessage>) -> MinoView
    decreases msgs.len(),
{
    if msgs.len() == 0 {
        m
    } else {
        after_moves(m, msgs.drop_last()).moved(msgs.last()).0
    }
}

/// Over any run of move requests, whether they succeed or fail, a piece keeps
/// its kind and whether it turns, and it is locked exactly when the run holds
/// a lock request (it stays as it was otherwise).
pub proof fn law_moves_keep_kind_and_lock(m: MinoView, msgs: Seq<MoveMessage>)
    ensures
        after_moves(m, msgs).mino_type == m.mino_type,
        after_moves(m, msgs).does_rotate == m.does_rotate,
        after_moves(m, msgs).state == (if msgs.contains(MoveMessage::Fix) {
            MinoState::Fixed
        } else {
            m.state
        }),
    decreases msgs.len(),
{
    if msgs.len() > 0 {
        let init = msgs.drop_last();
        law_moves_keep_kind_and_lock(m, init);
        assert(msgs =~= init.push(msgs.last()));
        assert(msgs.contains(MoveMessage::Fix) <==> (init.contains(MoveMessage::Fix) || msgs.last()
            == MoveMessage::Fix)) by {
            if init.contains(MoveMessage::Fix) {
                let i = choose|i: int| 0 <= i < init.len() && init[i] == MoveMessage::Fix;
                assert(msgs[i] == MoveMessage::Fix);
            }
            if msgs.contains(MoveMessage::Fix) && msgs.last() != MoveMessage::Fix {
                let i = choose|i: int| 0 <= i < msgs.len() && msgs[i] == MoveMessage::Fix;
                assert(init[i] == MoveMessage::Fix);
            }
            if msgs.last() == MoveMessage::Fix {
                assert(msgs[msgs.len() - 1] == MoveMessage::Fix);
            }
        }
    }
}

/// A piece that turns exactly when it is not an O piece (as every piece that
/// enters the field does, and stays so by `law_moves_keep_kind_and_lock`):
/// an O piece's rotation always succeeds and leaves it as it is.
pub proof fn law_o_piece_always_turns(m: MinoView, rt: RotationType)
    requires
        m.does_rotate == (m.mino_type != MinoType::MinoO),
        m.mino_type == MinoType::MinoO,
    ensures
        m.rotated(rt) == (m, true),
{
}

/// Dealing keeps the seven-bag order: if the pieces dealt so far followed by
/// the stock are whole bags, they still are after one more piece `r` is dealt
/// (as `RandomGenerator::next` does: the old stock followed by whole bags is
/// `r` followed by the new stock).
pub proof fn law_deal_keeps_bags(
    dealt: Seq<MinoType>,
    old_stock: Seq<MinoType>,
    r: MinoType,
    new_stock: Seq<MinoType>,
)
    requires
        is_bags(dealt + old_stock),
        extends_by_bags(old_stock, seq![r] + new_stock),
    ensures
        is_bags(dealt.push(r) + new_stock),
{
    let after = seq![r] + new_stock;
    let bags = after.skip(old_stock.len() as int);
    assert(old_stock + bags =~= after);
    lemma_bags_concat(dealt + old_stock, bags);
    assert(dealt + old_stock + bags =~= dealt.push(r) + new_stock);
}

/// Topping the stock up (as `generate` and `get_items` do) keeps the pieces
/// dealt so far followed by the stock whole bags.
pub proof fn law_top_up_keeps_bags(dealt: Seq<MinoType>, old_stock: Seq<MinoType>, new_stock: Seq<MinoType>)
    requires
        is_bags(dealt + old_stock),
        extends_by_bags(old_stock, new_stock),
    ensures
        is_bags(dealt + new_stock),
{
    let bags = new_stock.skip(old_stock.len() as int);
    assert(old_stock + bags =~= new_stock);
    lemma_bags_concat(dealt + old_stock, bags);
    assert(dealt + old_stock + bags =~= dealt + new_stock);
}

/// When the pieces dealt followed by the stock are whole bags (as from a new
/// generator, whose stock is empty, by `law_deal_keeps_bags` and
/// `law_top_up_keeps_bags`), every seven pieces dealt, counted from the first,
/// are the seven pieces in some order.
pub proof fn law_dealt_pieces_are_bags(dealt: Seq<MinoType>, stock: Seq<MinoType>)
    requires
        is_bags(dealt + stock),
    ensures
        forall|k: int| 0 <= k < dealt.len() / 7 ==> #[trigger] is_bag(bag_at(dealt, k)),
{
    let s = dealt + stock;
    assert forall|k: int| 0 <= k < dealt.len() / 7 implies #[trigger] is_bag(bag_at(dealt, k)) by {
        assert(7 * k + 7 <= dealt.len()) by (nonlinear_arith)
            requires
                0 <= k < dealt.len() / 7,
        ;
        assert(k < s.len() / 7) by (nonlinear_arith)
            requires
                0 <= k < dealt.len() / 7,
                dealt.len() <= s.len(),
        ;
        assert(bag_at(dealt, k) =~= bag_at(s, k));
    }
}

/// The preview is the order in which pieces are dealt: a deal from a
/// nonempty stock gives its first piece and keeps the rest in order at the
/// front of the new stock.
pub proof fn law_deal_follows_preview(old_stock: Seq<MinoType>, r: MinoType, new_stock: Seq<MinoType>)
    requires
        extends_by_bags(old_stock, seq![r] + new_stock),
        old_stock.len() > 0,
    ensures
        r == old_stock[0],
        new_stock.take(old_stock.len() - 1) == old_stock.drop_first(),
{
    let after = seq![r] + new_stock;
    assert(after.take(old_stock.len() as int)[0] == r);
    assert forall|i: int| 0 <= i < old_stock.len() - 1 implies new_stock.take(old_stock.len() - 1)[i]
        == old_stock.drop_first()[i] by {
        assert(after.take(old_stock.len() as int)[i + 1] == old_stock[i + 1]);
    }
    assert(new_stock.take(old_stock.len() - 1) =~= old_stock.drop_first());
}

/// A key phase keeps whether the hold was used, and keeps the held piece
/// unless it is the hold key's phase while holding is still allowed.
proof fn lemma_key_phase_hold(g: GameView, key: KeyType, now: u64, drawn: Option<MinoType>)
    ensures
        key_phase(g, key, now, drawn).is_hold_executed == g.is_hold_executed,
        key != KeyType::Hold || g.is_hold_executed ==> key_phase(g, key, now, drawn).hold == g.hold,
{
    reveal(key_phase);
}

/// Once a piece has been held, a whole frame leaves the held piece as it is:
/// a second hold before the next piece changes nothing in the hold.
pub proof fn law_frame_keeps_hold(g: GameView, now: u64, stream: Seq<MinoType>)
    requires
        g.is_hold_executed,
    ensures
        frame(g, now, stream).0.hold == g.hold,
{
    if !g.is_finished {
        let g1 = key_phase(g, KeyType::Left, now, None);
        let g2 = key_phase(g1, KeyType::Right, now, None);
        let g3 = key_phase(g2, KeyType::RotateRight, now, None);
        let g4 = key_phase(g3, KeyType::RotateLeft, now, None);
        lemma_key_phase_hold(g, KeyType::Left, now, None);
        lemma_key_phase_hold(g1, KeyType::Right, now, None);
        lemma_key_phase_hold(g2, KeyType::RotateRight, now, None);
        lemma_key_phase_hold(g3, KeyType::RotateLeft, now, None);
        lemma_key_phase_hold(g4, KeyType::Rotate180, now, None);
        let g5 = early_keys(g, now);
        let dh = deal(key_draws(g5, KeyType::HardDrop), stream, 0);
        let g6 = key_phase(g5, KeyType::HardDrop, now, dh);
        lemma_key_phase_hold(g5, KeyType::HardDrop, now, dh);
        lemma_key_phase_hold(g6, KeyType::SoftDrop, now, None);
        let g7 = before_hold(g, now, dh);
        let k1 = opt_seq(dh).len() as int;
        let dd = deal(key_draws(g7, KeyType::Hold), stream, k1);
        lemma_key_phase_hold(g7, KeyType::Hold, now, dd);
        let g8 = keys_part(g, now, dh, dd);
        let k2 = k1 + opt_seq(dd).len();
        let g9 = judge_phases(g8, now);
        let dl = deal(lock_draws(g9, now), stream, k2);
        let k3 = k2 + opt_seq(dl).len();
        let dm = deal(limit_draws(lock_phase(g9, now, dl)), stream, k3);
        lemma_later_phases_keep_keys(g8, now, dl, dm, g.mino.field, holds_now(g7));
    }
}

/// No lock while the piece can still fall: when, after the timed phases of a
/// frame, the piece can move down a row, neither the lock delay nor the move
/// limit locks it or deals a piece, and the lock checks change nothing.
pub proof fn law_no_lock_while_piece_can_fall(
    g: GameView,
    now: u64,
    dl: Option<MinoType>,
    dm: Option<MinoType>,
)
    requires
        judge_phases(g, now).mino.can_place(
            judge_phases(g, now).mino.x,
            judge_phases(g, now).mino.y + 1,
            judge_phases(g, now).mino.direction,
        ),
    ensures
        !lock_draws(judge_phases(g, now), now),
        !limit_draws(lock_phase(judge_phases(g, now), now, dl)),
        locks_part(g, now, dl, dm) == judge_phases(g, now),
{
    reveal(judge_phases);
    reveal(lock_phase);
    reveal(limit_phase);
}


/// One call on a piece, as a value: a move request, `set_position`, or
/// `draw_ghost`.
pub enum PieceOp {
    Move(MoveMessage),
    SetPosition(i64, i64),
    DrawGhost,
}

/// The piece after one call.
pub open spec fn op_step(m: MinoView, op: PieceOp) -> MinoView {
    match op {
        PieceOp::Move(msg) => m.moved(msg).0,
        PieceOp::SetPosition(x, y) => MinoView { x: x as int, y: y as int, ..m },
        PieceOp::DrawGhost => m.with_ghost(),
    }
}

/// The piece after a run of calls, one after another.
pub open spec fn after_ops(m: MinoView, ops: Seq<PieceOp>) -> MinoView
    decreases ops.len(),
{
    if ops.len() == 0 {
        m
    } else {
        op_step(after_ops(m, ops.drop_last()), ops.last())
    }
}

/// Over any run of move requests, `set_position` and `draw_ghost` calls, a
/// piece keeps its kind and whether it turns.
pub proof fn law_ops_keep_kind(m: MinoView, ops: Seq<PieceOp>)
    ensures
        after_ops(m, ops).mino_type == m.mino_type,
        after_ops(m, ops).does_rotate == m.does_rotate,
    decreases ops.len(),
{
    if ops.len() > 0 {
        law_ops_keep_kind(m, ops.drop_last());
    }
}

/// A piece that enters a field (as `Mino::new` makes it) turns exactly when it
/// is not an O piece, and stays so over any run of calls; so an O piece's
/// rotation always succeeds and leaves it as it is, whatever came before.
pub proof fn law_new_o_piece_always_turns(g: Grid, ops: Seq<PieceOp>, rt: RotationType)
    ensures
        after_ops(spawned(g, MinoType::MinoO), ops).rotated(rt) == (
            after_ops(spawned(g, MinoType::MinoO), ops),
            true,
        ),
{
    law_ops_keep_kind(spawned(g, MinoType::MinoO), ops);
    law_o_piece_always_turns(after_ops(spawned(g, MinoType::MinoO), ops), rt);
}

/// A grid without ghost cells.
pub open spec fn no_ghosts(g: Grid) -> bool {
    forall|i: int, j: int| #[trigger] in_field(g, i, j) ==> !(g[i][j] is GhostBlock)
}

/// Emptying the ghost cells of a grid without any changes nothing.
proof fn lemma_no_ghosts_unchanged(g: Grid)
    requires
        no_ghosts(g),
    ensures
        without_ghosts(g) == g,
{
    assert forall|i: int| 0 <= i < g.len() implies #[trigger] without_ghosts(g)[i] =~= g[i] by {
        assert forall|j: int| 0 <= j < g[i].len() implies without_ghosts(g)[i][j] == g[i][j] by {
            assert(in_field(g, i, j));
        }
    }
    assert(without_ghosts(g) =~= g);
}

/// Drawing a falling piece somewhere adds no ghost cell.
proof fn lemma_placed_no_ghosts(g: Grid, t: MinoType, d: MinoDirection, x: int, y: int)
    requires
        no_ghosts(g),
    ensures
        no_ghosts(placed(g, t, d, x, y, MinoState::InMotion)),
{
    let h = placed(g, t, d, x, y, MinoState::InMotion);
    assert forall|i: int, j: int| #[trigger] in_field(h, i, j) implies !(h[i][j] is GhostBlock) by {
        assert(in_field(g, i, j));
    }
}

/// In a field without ghost cells, a falling piece drawn where it stands that
/// is moved to another place where it fits and moved straight back is where it
/// was, turned as it was, and the field is exactly as before.
pub proof fn law_move_back_exact(m: MinoView, x: int, y: int, d: MinoDirection)
    requires
        m.state == MinoState::InMotion,
        m.placed_within(),
        m.field == placed(m.field, m.mino_type, m.direction, m.x, m.y, MinoState::InMotion),
        no_ghosts(m.field),
        m.can_place(x, y, d),
    ensures
        m.moved_to(x, y, d).can_place(m.x, m.y, m.direction),
        m.moved_to(x, y, d).moved_to(m.x, m.y, m.direction).x == m.x,
        m.moved_to(x, y, d).moved_to(m.x, m.y, m.direction).y == m.y,
        m.moved_to(x, y, d).moved_to(m.x, m.y, m.direction).direction == m.direction,
        m.moved_to(x, y, d).moved_to(m.x, m.y, m.direction).field == m.field,
{
    law_move_back(m, x, y, d);
    let n = m.moved_to(x, y, d);
    lemma_placed_no_ghosts(m.field, m.mino_type, d, x, y);
    lemma_placed_no_ghosts(n.field, m.mino_type, m.direction, m.x, m.y);
    lemma_no_ghosts_unchanged(m.field);
    lemma_no_ghosts_unchanged(n.moved_to(m.x, m.y, m.direction).field);
}

/// Drawing the ghost a second time changes nothing: the field is the same as
/// after drawing it once.
pub proof fn law_ghost_twice(m: MinoView)
    ensures
        m.with_ghost().with_ghost() == m.with_ghost(),
{
    let t = m.mino_type;
    let d = m.direction;
    let f = m.field;
    let w = without_ghosts(f);
    let f1 = m.with_ghost().field;
    let w1 = without_ghosts(f1);
    assert forall|i: int| 0 <= i < w.len() implies #[trigger] w1[i] =~= w[i] by {
        assert forall|j: int| 0 <= j < w[i].len() implies w1[i][j] == w[i][j] by {
        }
    }
    assert(w1 =~= w);
    assert(same_collisions(f1, f)) by {
        assert(same_dims(f1, f));
        assert forall|i: int, j: int| #[trigger] in_field(f1, i, j) implies f1[i][j].collides()
            == f[i][j].collides() by {
        }
    }
    lemma_landing_same_collisions(f1, f, t, d, m.x, m.y);
    assert(m.with_ghost().with_ghost().field =~= f1);
}


/// Whether `stocks` are the stocks of a generator before and after each call
/// of a run: `run[i]` is the piece that call `i` dealt (as `next` does), or
/// `None` for a call that only tops the stock up (as `generate` and
/// `get_items` do). These are what those calls' contracts state.
pub open spec fn generator_run(stocks: Seq<Seq<MinoType>>, run: Seq<Option<MinoType>>) -> bool {
    &&& stocks.len() == run.len() + 1
    &&& forall|i: int|
        0 <= i < run.len() ==> match #[trigger] run[i] {
            Some(d) => extends_by_bags(stocks[i], seq![d] + stocks[i + 1]),
            None => extends_by_bags(stocks[i], stocks[i + 1]),
        }
}

/// The pieces dealt over a run, in order.
pub open spec fn dealt_in(run: Seq<Option<MinoType>>) -> Seq<MinoType>
    decreases run.len(),
{
    if run.len() == 0 {
        Seq::empty()
    } else {
        dealt_in(run.drop_last()) + opt_seq(run.last())
    }
}

/// The first calls of a run are a run.
proof fn lemma_run_prefix(stocks: Seq<Seq<MinoType>>, run: Seq<Option<MinoType>>)
    requires
        generator_run(stocks, run),
        run.len() > 0,
    ensures
        generator_run(stocks.drop_last(), run.drop_last()),
{
    let s2 = stocks.drop_last();
    let r2 = run.drop_last();
    assert forall|i: int| 0 <= i < r2.len() implies match #[trigger] r2[i] {
        Some(d) => extends_by_bags(s2[i], seq![d] + s2[i + 1]),
        None => extends_by_bags(s2[i], s2[i + 1]),
    } by {
        assert(run[i] == r2[i]);
    }
}

/// The seven-bag law over a whole run: from a stock of whole bags (the empty
/// stock of a new generator), the pieces dealt over any run of `next`,
/// `generate` and `get_items` calls followed by the stock are whole bags, so
/// every seven pieces dealt, counted from the first, are the seven kinds in
/// some order.
pub proof fn law_run_deals_bags(stocks: Seq<Seq<MinoType>>, run: Seq<Option<MinoType>>)
    requires
        generator_run(stocks, run),
        is_bags(stocks[0]),
    ensures
        is_bags(dealt_in(run) + stocks.last()),
        forall|k: int| 0 <= k < dealt_in(run).len() / 7 ==> #[trigger] is_bag(bag_at(dealt_in(run), k)),
    decreases run.len(),
{
    if run.len() == 0 {
        assert(dealt_in(run) + stocks.last() =~= stocks[0]);
    } else {
        let n = run.len() - 1;
        lemma_run_prefix(stocks, run);
        law_run_deals_bags(stocks.drop_last(), run.drop_last());
        let prev = dealt_in(run.drop_last());
        assert(stocks.drop_last().last() == stocks[n]);
        assert(stocks.last() == stocks[n + 1]);
        match run[n] {
            Some(d) => {
                law_deal_keeps_bags(prev, stocks[n], d, stocks[n + 1]);
                assert(prev.push(d) =~= dealt_in(run));
            },
            None => {
                law_top_up_keeps_bags(prev, stocks[n], stocks[n + 1]);
                assert(prev =~= dealt_in(run));
            },
        }
    }
    law_dealt_pieces_are_bags(dealt_in(run), stocks.last());
}

/// The preview is the order of the deals: over a run of `n` deals from a
/// stock of at least `n` pieces (as after `get_items(n)`, which gives those
/// `n` pieces), the pieces dealt are the first `n` pieces of that stock, in
/// order, and the rest of it stays at the front of the stock.
pub proof fn law_run_follows_preview(stocks: Seq<Seq<MinoType>>, run: Seq<Option<MinoType>>)
    requires
        generator_run(stocks, run),
        forall|i: int| 0 <= i < run.len() ==> #[trigger] run[i] is Some,
        run.len() <= stocks[0].len(),
    ensures
        dealt_in(run) == stocks[0].take(run.len() as int),
        stocks.last().len() >= stocks[0].len() - run.len(),
        stocks.last().take(stocks[0].len() - run.len()) == stocks[0].skip(run.len() as int),
    decreases run.len(),
{
    let s0 = stocks[0];
    if run.len() == 0 {
        assert(s0.take(0) =~= Seq::<MinoType>::empty());
        assert(s0.take(s0.len() as int) =~= s0);
        assert(s0.skip(0) =~= s0);
    } else {
        let n = run.len() - 1;
        lemma_run_prefix(stocks, run);
        assert forall|i: int| 0 <= i < run.drop_last().len() implies #[trigger] run.drop_last()[i] is Some by {
            assert(run[i] is Some);
        }
        law_run_follows_preview(stocks.drop_last(), run.drop_last());
        assert(stocks.drop_last().last() == stocks[n]);
        assert(stocks.last() == stocks[n + 1]);
        let a = stocks[n];
        let b = stocks[n + 1];
        let d = run[n]->0;
        assert(run[n] is Some);
        assert(extends_by_bags(a, seq![d] + b));
        let rest = s0.len() - n;
        assert(a.take(rest) == s0.skip(n));
        assert(a[0] == a.take(rest)[0]);
        law_deal_follows_preview(a, d, b);
        let sb = seq![d] + b;
        assert(sb.len() >= a.len());
        assert(b.len() >= a.len() - 1);
        assert(dealt_in(run) =~= s0.take(n + 1)) by {
            assert(dealt_in(run) == dealt_in(run.drop_last()) + opt_seq(run.last()));
            assert(d == s0[n]);
        }
        assert(b.take(rest - 1) =~= s0.skip(n + 1)) by {
            assert forall|i: int| 0 <= i < rest - 1 implies #[trigger] b.take(rest - 1)[i] == s0.skip(n + 1)[i] by {
                assert(b.take(a.len() - 1)[i] == a.drop_first()[i]);
                assert(a.take(rest)[i + 1] == s0.skip(n)[i + 1]);
            }
        }
    }
}


/// Two grids of the same dimensions with locked cells at the same places.
pub open spec fn same_locked(a: Grid, b: Grid) -> bool {
    &&& same_dims(a, b)
    &&& forall|i: int, j: int| #[trigger] in_field(a, i, j) ==> (a[i][j] is MinoBlock) == (b[i][j] is MinoBlock)
}

/// Rows with locked cells at the same places have as many locked cells.
proof fn lemma_row_locked_same(a: Seq<BlockType>, b: Seq<BlockType>)
    requires
        a.len() == b.len(),
        forall|j: int| 0 <= j < a.len() ==> (#[trigger] a[j] is MinoBlock) == (b[j] is MinoBlock),
    ensures
        row_locked(a) == row_locked(b),
    decreases a.len(),
{
    if a.len() > 0 {
        lemma_row_locked_same(a.drop_last(), b.drop_last());
        assert(a.last() == a[a.len() - 1]);
    }
}

/// Grids with locked cells at the same places have as many locked cells.
proof fn lemma_locked_count_same(a: Grid, b: Grid)
    requires
        same_locked(a, b),
    ensures
        locked_count(a) == locked_count(b),
    decreases a.len(),
{
    if a.len() > 0 {
        let n = a.len() - 1;
        assert(same_locked(a.drop_last(), b.drop_last())) by {
            assert forall|i: int, j: int| #[trigger] in_field(a.drop_last(), i, j) implies (
            a.drop_last()[i][j] is MinoBlock) == (b.drop_last()[i][j] is MinoBlock) by {
                assert(in_field(a, i, j));
            }
        }
        lemma_locked_count_same(a.drop_last(), b.drop_last());
        assert forall|j: int| 0 <= j < a[n].len() implies (#[trigger] a[n][j] is MinoBlock) == (
        b[n][j] is MinoBlock) by {
            assert(in_field(a, n, j));
        }
        lemma_row_locked_same(a[n], b[n]);
    }
}

/// Having locked cells at the same places carries over from grid to grid.
proof fn lemma_same_locked_trans(a: Grid, b: Grid, c: Grid)
    requires
        same_locked(a, b),
        same_locked(b, c),
    ensures
        same_locked(a, c),
{
    assert forall|i: int, j: int| #[trigger] in_field(a, i, j) implies (a[i][j] is MinoBlock) == (
    c[i][j] is MinoBlock) by {
        assert(in_field(b, i, j));
    }
}

/// The locked cells of two grids one above the other add up.
proof fn lemma_locked_count_concat(a: Grid, b: Grid)
    ensures
        locked_count(a + b) == locked_count(a) + locked_count(b),
    decreases b.len(),
{
    if b.len() > 0 {
        assert((a + b).drop_last() =~= a + b.drop_last());
        lemma_locked_count_concat(a, b.drop_last());
    } else {
        assert(a + b =~= a);
    }
}

/// A row of empty cells has no locked cell.
proof fn lemma_empty_row_unlocked(w: int)
    requires
        w >= 0,
    ensures
        row_locked(empty_row(w)) == 0,
    decreases w,
{
    if w > 0 {
        assert(empty_row(w).drop_last() =~= empty_row(w - 1));
        lemma_empty_row_unlocked(w - 1);
    }
}

/// Empty rows have no locked cell.
proof fn lemma_blank_unlocked(n: int)
    requires
        n >= 0,
    ensures
        locked_count(blank_rows(n)) == 0,
    decreases n,
{
    lemma_empty_row_unlocked(WIDTH as int);
    if n > 0 {
        assert(blank_rows(n).drop_last() =~= blank_rows(n - 1));
        lemma_blank_unlocked(n - 1);
    }
}

/// Keeping only the rows that are not full keeps at most as many locked cells.
proof fn lemma_kept_rows_count(g: Grid)
    ensures
        locked_count(kept_rows(g)) <= locked_count(g),
    decreases g.len(),
{
    reveal(Seq::filter);
    if g.len() > 0 {
        lemma_kept_rows_count(g.drop_last());
        let sub = kept_rows(g.drop_last());
        if !row_full(g.last()) {
            assert(sub.push(g.last()).drop_last() =~= sub);
        }
    }
}

/// Line clearing does not add locked cells.
pub proof fn law_clearing_adds_no_locked_cells(g: Grid)
    ensures
        locked_count(cleared_lines(g)) <= locked_count(g),
{
    g.lemma_filter_len(|row: Seq<BlockType>| !row_full(row));
    let b = g.len() - kept_rows(g).len();
    lemma_locked_count_concat(blank_rows(b), kept_rows(g));
    lemma_blank_unlocked(b);
    lemma_kept_rows_count(g);
}

/// Moving a falling piece to a place where it fits leaves the locked cells.
proof fn lemma_moved_to_locked(m: MinoView, x: int, y: int, d: MinoDirection)
    requires
        m.state == MinoState::InMotion,
        m.can_place(x, y, d),
    ensures
        same_locked(m.moved_to(x, y, d).field, m.field),
{
    let g = m.field;
    let h = m.moved_to(x, y, d).field;
    assert(same_dims(h, g)) by {
        assert forall|i: int| 0 <= i < h.len() implies #[trigger] h[i].len() == g[i].len() by {
            assert(without_motion(g)[i].len() == g[i].len());
        }
    }
    assert forall|i: int, j: int| #[trigger] in_field(h, i, j) implies (h[i][j] is MinoBlock) == (
    g[i][j] is MinoBlock) by {
        if shape_cell(m.mino_type, d, i - y, j - x) {
            assert(in_field(g, y + (i - y), x + (j - x)));
        }
    }
}

/// Any move request but a lock leaves a falling piece falling and the locked
/// cells as they are.
proof fn lemma_moved_locked(m: MinoView, msg: MoveMessage)
    requires
        m.state == MinoState::InMotion,
        msg != MoveMessage::Fix,
    ensures
        same_locked(m.moved(msg).0.field, m.field),
        m.moved(msg).0.state == MinoState::InMotion,
{
    let rt = match msg {
        MoveMessage::RotateRight => RotationType::RotateRight,
        MoveMessage::RotateLeft => RotationType::RotateLeft,
        _ => RotationType::Rotate180,
    };
    match msg {
        MoveMessage::Left => {
            if m.can_place(m.x - 1, m.y, m.direction) {
                lemma_moved_to_locked(m, m.x - 1, m.y, m.direction);
            }
        },
        MoveMessage::Right => {
            if m.can_place(m.x + 1, m.y, m.direction) {
                lemma_moved_to_locked(m, m.x + 1, m.y, m.direction);
            }
        },
        MoveMessage::Down => {
            if m.can_place(m.x, m.y + 1, m.direction) {
                lemma_moved_to_locked(m, m.x, m.y + 1, m.direction);
            }
        },
        _ => {
            lemma_first_kick(m, rt, 0);
            if m.does_rotate {
                if let Some(k) = m.first_kick(rt, 0) {
                    lemma_moved_to_locked(m, m.kick_x(rt, k), m.kick_y(rt, k), target_direction(m.direction, rt));
                }
            }
        },
    }
    assert(same_locked(m.field, m.field)) by {
        assert(same_dims(m.field, m.field));
    }
}

/// Dropping a falling piece to the bottom leaves it falling and the locked
/// cells as they are.
proof fn lemma_hard_dropped_locked(m: MinoView)
    requires
        m.state == MinoState::InMotion,
    ensures
        same_locked(m.hard_dropped().field, m.field),
        m.hard_dropped().state == MinoState::InMotion,
    decreases m.field.len() - m.y,
{
    if m.can_place(m.x, m.y + 1, m.direction) {
        lemma_shape_has_inner_cell(m.mino_type, m.direction);
        let n = m.moved_to(m.x, m.y + 1, m.direction);
        lemma_moved_to_locked(m, m.x, m.y + 1, m.direction);
        lemma_hard_dropped_locked(n);
        lemma_same_locked_trans(n.hard_dropped().field, n.field, m.field);
    } else {
        assert(same_dims(m.field, m.field));
    }
}

/// Drawing the ghost leaves the locked cells as they are.
proof fn lemma_ghost_locked(m: MinoView)
    ensures
        same_locked(m.with_ghost().field, m.field),
{
    let h = m.with_ghost().field;
    assert(same_dims(h, m.field));
    assert forall|i: int, j: int| #[trigger] in_field(h, i, j) implies (h[i][j] is MinoBlock) == (
    m.field[i][j] is MinoBlock) by {
    }
}

/// A key phase other than a hard drop leaves a falling piece falling and the
/// locked cells as they are.
proof fn lemma_key_phase_locked(g: GameView, key: KeyType, now: u64, drawn: Option<MinoType>)
    requires
        g.mino.state == MinoState::InMotion,
        key == KeyType::HardDrop ==> g.keys[key_index(key)] != KeyStatePlus::DownUnprocessed,
    ensures
        same_locked(key_phase(g, key, now, drawn).mino.field, g.mino.field),
        key_phase(g, key, now, drawn).mino.state == MinoState::InMotion,
        key != KeyType::Hold ==> key_phase(g, key, now, drawn).next == g.next,
{
    reveal(key_phase);
    assert(same_dims(g.mino.field, g.mino.field));
    match key {
        KeyType::Left => lemma_moved_locked(g.mino, MoveMessage::Left),
        KeyType::Right => lemma_moved_locked(g.mino, MoveMessage::Right),
        KeyType::RotateRight => lemma_moved_locked(g.mino, MoveMessage::RotateRight),
        KeyType::RotateLeft => lemma_moved_locked(g.mino, MoveMessage::RotateLeft),
        KeyType::Rotate180 => lemma_moved_locked(g.mino, MoveMessage::Rotate180),
        _ => {},
    }
}

/// The timed phases leave a falling piece falling, the locked cells as they
/// are, and the next piece as it is.
proof fn lemma_judge_locked(g: GameView, now: u64)
    requires
        g.mino.state == MinoState::InMotion,
    ensures
        same_locked(judge_phases(g, now).mino.field, g.mino.field),
        judge_phases(g, now).mino.state == MinoState::InMotion,
        judge_phases(g, now).next == g.next,
{
    reveal(judge_phases);
    let a = soft_drop_phase(g, now);
    assert(same_dims(g.mino.field, g.mino.field));
    if g.is_in_soft_drop {
        if g.settings.soft_drop_ms == 0 {
            lemma_hard_dropped_locked(g.mino);
        } else {
            lemma_moved_locked(g.mino, MoveMessage::Down);
        }
    }
    let b = das_phase(a, now);
    let c = arr_phase(b, now);
    lemma_moved_locked(b.mino, MoveMessage::Right);
    lemma_moved_locked(b.mino, MoveMessage::Left);
    lemma_same_locked_trans(c.mino.field, b.mino.field, g.mino.field);
    let e = gravity_phase(c, now);
    lemma_moved_locked(c.mino, MoveMessage::Down);
    lemma_same_locked_trans(e.mino.field, c.mino.field, g.mino.field);
}

/// Whether, in a frame without a hard drop, the piece can still move down a
/// row after the keys and the timed phases (before the lock checks).
pub open spec fn falls_after_moves(g: GameView, now: u64, stream: Seq<MinoType>) -> bool {
    let dd = deal(key_draws(before_hold(g, now, None), KeyType::Hold), stream, 0);
    let g9 = judge_phases(keys_part(g, now, None, dd), now);
    g9.mino.can_place(g9.mino.x, g9.mino.y + 1, g9.mino.direction)
}

/// A frame in which the piece is not hard-dropped and can still fall after
/// its moves locks nothing: the field ends with no more locked cells than it
/// started with (line clearing can only remove some), and the only new piece
/// that can enter is one that the hold key brought.
pub proof fn law_no_new_locked_cells_while_falling(g: GameView, now: u64, stream: Seq<MinoType>)
    requires
        !g.is_finished,
        g.keys.len() == 8,
        g.mino.state == MinoState::InMotion,
        g.keys[key_index(KeyType::HardDrop)] != KeyStatePlus::DownUnprocessed,
        falls_after_moves(g, now, stream),
    ensures
        locked_count(frame(g, now, stream).0.mino.field) <= locked_count(g.mino.field),
        ({
            let dd = deal(key_draws(before_hold(g, now, None), KeyType::Hold), stream, 0);
            frame(g, now, stream) == (
                spawn_phase(
                    ghost_phase(judge_phases(keys_part(g, now, None, dd), now), g.mino.field),
                    holds_now(before_hold(g, now, None)),
                ),
                opt_seq(dd).len() as int,
            ) && judge_phases(keys_part(g, now, None, dd), now).next == keys_part(g, now, None, dd).next
        }),
{
    let hd = key_index(KeyType::HardDrop);
    let g1 = key_phase(g, KeyType::Left, now, None);
    let g2 = key_phase(g1, KeyType::Right, now, None);
    let g3 = key_phase(g2, KeyType::RotateRight, now, None);
    let g4 = key_phase(g3, KeyType::RotateLeft, now, None);
    let g5 = key_phase(g4, KeyType::Rotate180, now, None);
    lemma_key_phase_keys(g, KeyType::Left, now, None);
    lemma_key_phase_keys(g1, KeyType::Right, now, None);
    lemma_key_phase_keys(g2, KeyType::RotateRight, now, None);
    lemma_key_phase_keys(g3, KeyType::RotateLeft, now, None);
    lemma_key_phase_keys(g4, KeyType::Rotate180, now, None);
    lemma_key_phase_locked(g, KeyType::Left, now, None);
    lemma_key_phase_locked(g1, KeyType::Right, now, None);
    lemma_key_phase_locked(g2, KeyType::RotateRight, now, None);
    lemma_key_phase_locked(g3, KeyType::RotateLeft, now, None);
    lemma_key_phase_locked(g4, KeyType::Rotate180, now, None);
    assert(early_keys(g, now) == g5);
    assert(g5.keys[hd] == g.keys[hd]);
    assert(!key_draws(g5, KeyType::HardDrop));
    let g6 = key_phase(g5, KeyType::HardDrop, now, None);
    lemma_key_phase_locked(g5, KeyType::HardDrop, now, None);
    let g7 = key_phase(g6, KeyType::SoftDrop, now, None);
    lemma_key_phase_locked(g6, KeyType::SoftDrop, now, None);
    assert(before_hold(g, now, None) == g7);
    let dd = deal(key_draws(g7, KeyType::Hold), stream, 0);
    let g8 = key_phase(g7, KeyType::Hold, now, dd);
    lemma_key_phase_locked(g7, KeyType::Hold, now, dd);
    assert(keys_part(g, now, None, dd) == g8);
    lemma_judge_locked(g8, now);
    let g9 = judge_phases(g8, now);
    let dl = deal(lock_draws(g9, now), stream, opt_seq(dd).len() as int);
    let dm = deal(limit_draws(lock_phase(g9, now, dl)), stream, (opt_seq(dd).len() + opt_seq(dl).len()) as int);
    law_no_lock_while_piece_can_fall(g8, now, dl, dm);
    assert(dl is None);
    assert(dm is None);
    assert(opt_seq(dl).len() == 0 && opt_seq(dm).len() == 0);
    lemma_same_locked_trans(g2.mino.field, g1.mino.field, g.mino.field);
    lemma_same_locked_trans(g3.mino.field, g2.mino.field, g.mino.field);
    lemma_same_locked_trans(g4.mino.field, g3.mino.field, g.mino.field);
    lemma_same_locked_trans(g5.mino.field, g4.mino.field, g.mino.field);
    lemma_same_locked_trans(g6.mino.field, g5.mino.field, g.mino.field);
    lemma_same_locked_trans(g7.mino.field, g6.mino.field, g.mino.field);
    lemma_same_locked_trans(g8.mino.field, g7.mino.field, g.mino.field);
    lemma_same_locked_trans(g9.mino.field, g8.mino.field, g.mino.field);
    let g12 = ghost_phase(g9, g.mino.field);
    reveal(ghost_phase);
    lemma_ghost_locked(g9.mino);
    lemma_same_locked_trans(g12.mino.field, g9.mino.field, g.mino.field);
    lemma_locked_count_same(g12.mino.field, g.mino.field);
    let r = spawn_phase(g12, holds_now(g7));
    reveal(spawn_phase);
    if let Some(n) = g12.next {
        if fits(g12.mino.field, n, MinoDirection::North, APPEARANCE_X as int, APPEARANCE_Y as int) {
            let m0 = default_mino_in(g12.mino.field, n);
            lemma_moved_to_locked(m0, APPEARANCE_X as int, APPEARANCE_Y as int, MinoDirection::North);
            assert(m0.moved_to(APPEARANCE_X as int, APPEARANCE_Y as int, MinoDirection::North).field
                == spawned(g12.mino.field, n).field);
            lemma_locked_count_same(spawned(g12.mino.field, n).field, g12.mino.field);
            law_clearing_adds_no_locked_cells(spawned(g12.mino.field, n).field);
        }
    }
}


/// Whether cell `c` of row `r` of a piece's box is a cell of the piece and
/// lies before column `lim` of the box, as 1 or 0.
pub open spec fn box_cell_below(t: MinoType, d: MinoDirection, r: int, c: int, lim: int) -> nat {
    if shape_cell(t, d, r, c) && c < lim {
        1
    } else {
        0
    }
}

/// The number of cells of a piece in row `r` of its box, in the columns before `lim`.
pub open spec fn box_row_below(t: MinoType, d: MinoDirection, r: int, lim: int) -> nat {
    box_cell_below(t, d, r, 0, lim) + box_cell_below(t, d, r, 1, lim) + box_cell_below(t, d, r, 2, lim)
        + box_cell_below(t, d, r, 3, lim)
}

/// The number of cells of a piece in row `r` of its box, or 0 for a row at or after `lim`.
pub open spec fn box_row_if_below(t: MinoType, d: MinoDirection, r: int, lim: int) -> nat {
    if 0 <= r < lim {
        box_row_below(t, d, r, 4)
    } else {
        0
    }
}

/// The number of cells of a piece in the rows of its box before `lim`.
pub open spec fn box_rows_below(t: MinoType, d: MinoDirection, lim: int) -> nat {
    box_row_if_below(t, d, 0, lim) + box_row_if_below(t, d, 1, lim) + box_row_if_below(t, d, 2, lim)
        + box_row_if_below(t, d, 3, lim)
}

/// Every piece, in every direction, has four cells.
pub proof fn lemma_four_cells(t: MinoType, d: MinoDirection)
    ensures
        box_rows_below(t, d, 4) == 4,
{
    match t {
        MinoType::MinoO => {},
        _ => match d {
            MinoDirection::North => {},
            MinoDirection::East => {},
            MinoDirection::South => {},
            MinoDirection::West => {},
        },
    }
}

/// A row whose falling cells are exactly the cells of row `r` of a piece's
/// box placed at column `x` holds as many falling cells as that box row has
/// before column `n - x`, counting its first `n` cells.
proof fn lemma_row_falling_box(row: Seq<BlockType>, t: MinoType, d: MinoDirection, r: int, x: int, n: int)
    requires
        0 <= n <= row.len(),
        forall|j: int| 0 <= j < row.len() ==> (#[trigger] row[j] is MinoInMotion) == shape_cell(t, d, r, j - x),
        forall|c: int| #[trigger] shape_cell(t, d, r, c) ==> 0 <= x + c,
    ensures
        row_falling(row.take(n)) == box_row_below(t, d, r, n - x),
    decreases n,
{
    if n > 0 {
        lemma_row_falling_box(row, t, d, r, x, n - 1);
        assert(row.take(n).drop_last() =~= row.take(n - 1));
        assert(row.take(n).last() == row[n - 1]);
    } else {
        assert(row.take(0).len() == 0);
    }
}

/// A grid whose falling cells are exactly the cells of a piece placed with
/// its box's corner at (`x`, `y`), with all its cells inside the grid, holds
/// as many falling cells as the piece has, counting its first `n` rows.
proof fn lemma_grid_falling_box(g: Grid, t: MinoType, d: MinoDirection, x: int, y: int, n: int)
    requires
        0 <= n <= g.len(),
        forall|i: int, j: int| #[trigger] in_field(g, i, j) ==> (g[i][j] is MinoInMotion) == shape_cell(t, d, i - y, j - x),
        forall|r: int, c: int| #[trigger] shape_cell(t, d, r, c) ==> in_field(g, y + r, x + c),
    ensures
        falling_count(g.take(n)) == box_rows_below(t, d, n - y),
    decreases n,
{
    assert forall|r: int, c: int| #[trigger] shape_cell(t, d, r, c) implies y + r < g.len() by {
        assert(in_field(g, y + r, x + c));
    }
    if n > 0 {
        lemma_grid_falling_box(g, t, d, x, y, n - 1);
        assert(g.take(n).drop_last() =~= g.take(n - 1));
        let i = n - 1;
        let row = g[i];
        assert(g.take(n).last() == row);
        assert forall|j: int| 0 <= j < row.len() implies (#[trigger] row[j] is MinoInMotion) == shape_cell(t, d, i - y, j - x) by {
            assert(in_field(g, i, j));
        }
        assert forall|c: int| #[trigger] shape_cell(t, d, i - y, c) implies 0 <= x + c && x + c < row.len() by {
            assert(in_field(g, y + (i - y), x + c));
        }
        lemma_row_falling_box(row, t, d, i - y, x, row.len() as int);
        assert(row.take(row.len() as int) =~= row);
        assert(box_row_below(t, d, i - y, row.len() - x) == box_row_if_below(t, d, i - y, 4));
        if 0 <= i - y < 4 {
        } else {
            assert(box_row_below(t, d, i - y, 4) == 0);
        }
    } else {
        assert(g.take(0).len() == 0);
        assert(falling_count(g.take(0)) == 0);
    }
}

/// Whether every falling cell of a grid is a cell of a piece of kind `t`.
pub open spec fn falling_of_kind(g: Grid, t: MinoType) -> bool {
    forall|i: int, j: int| #[trigger] in_field(g, i, j) && g[i][j] is MinoInMotion ==> g[i][j] == BlockType::MinoInMotion(t)
}

/// A falling piece drawn where it fits leaves exactly four falling cells in
/// the field, all of its kind.
pub proof fn lemma_placed_four(g: Grid, t: MinoType, d: MinoDirection, x: int, y: int)
    requires
        fits(g, t, d, x, y),
    ensures
        falling_count(placed(g, t, d, x, y, MinoState::InMotion)) == 4,
        falling_of_kind(placed(g, t, d, x, y, MinoState::InMotion), t),
{
    let h = placed(g, t, d, x, y, MinoState::InMotion);
    assert forall|i: int, j: int| #[trigger] in_field(h, i, j) implies (h[i][j] is MinoInMotion) == shape_cell(t, d, i - y, j - x) by {
        assert(in_field(g, i, j));
    }
    assert forall|r: int, c: int| #[trigger] shape_cell(t, d, r, c) implies in_field(h, y + r, x + c) by {
        assert(in_field(g, y + r, x + c));
    }
    lemma_grid_falling_box(h, t, d, x, y, h.len() as int);
    assert(h.take(h.len() as int) =~= h);
    assert forall|r: int, c: int| #[trigger] shape_cell(t, d, r, c) implies y + r < h.len() by {
        assert(in_field(h, y + r, x + c));
    }
    assert(box_rows_below(t, d, h.len() - y) == box_rows_below(t, d, 4));
    lemma_four_cells(t, d);
}


/// Whether every falling cell of a row is a cell of a piece of kind `t`.
pub open spec fn row_of_kind(row: Seq<BlockType>, t: MinoType) -> bool {
    forall|j: int| 0 <= j < row.len() && (#[trigger] row[j] is MinoInMotion) ==> row[j] == BlockType::MinoInMotion(t)
}

/// A full row holds no falling cell.
proof fn lemma_full_row_not_falling(row: Seq<BlockType>)
    requires
        row_full(row),
    ensures
        row_falling(row) == 0,
    decreases row.len(),
{
    if row.len() > 0 {
        assert(row_full(row.drop_last()));
        lemma_full_row_not_falling(row.drop_last());
        assert(row.last() == row[row.len() - 1]);
        assert(row[row.len() - 1].collides());
    }
}

/// A row of empty cells holds no falling cell.
proof fn lemma_empty_row_not_falling(w: int)
    requires
        w >= 0,
    ensures
        row_falling(empty_row(w)) == 0,
    decreases w,
{
    if w > 0 {
        assert(empty_row(w).drop_last() =~= empty_row(w - 1));
        lemma_empty_row_not_falling(w - 1);
    }
}

/// Empty rows hold no falling cell.
proof fn lemma_blank_not_falling(n: int)
    requires
        n >= 0,
    ensures
        falling_count(blank_rows(n)) == 0,
    decreases n,
{
    lemma_empty_row_not_falling(WIDTH as int);
    if n > 0 {
        assert(blank_rows(n).drop_last() =~= blank_rows(n - 1));
        lemma_blank_not_falling(n - 1);
    }
}

/// The falling cells of two grids one above the other add up.
proof fn lemma_falling_count_concat(a: Grid, b: Grid)
    ensures
        falling_count(a + b) == falling_count(a) + falling_count(b),
    decreases b.len(),
{
    if b.len() > 0 {
        assert((a + b).drop_last() =~= a + b.drop_last());
        lemma_falling_count_concat(a, b.drop_last());
    } else {
        assert(a + b =~= a);
    }
}

/// Keeping the rows that are not full keeps every falling cell, of its kind.
proof fn lemma_kept_rows_falling(g: Grid, t: MinoType)
    ensures
        falling_count(kept_rows(g)) == falling_count(g),
        (forall|i: int| 0 <= i < g.len() ==> #[trigger] row_of_kind(g[i], t)) ==> forall|i: int|
            0 <= i < kept_rows(g).len() ==> #[trigger] row_of_kind(kept_rows(g)[i], t),
    decreases g.len(),
{
    reveal(Seq::filter);
    if g.len() > 0 {
        let g0 = g.drop_last();
        lemma_kept_rows_falling(g0, t);
        let sub = kept_rows(g0);
        if !row_full(g.last()) {
            assert(sub.push(g.last()).drop_last() =~= sub);
        } else {
            lemma_full_row_not_falling(g.last());
        }
        if forall|i: int| 0 <= i < g.len() ==> #[trigger] row_of_kind(g[i], t) {
            assert forall|i: int| 0 <= i < g0.len() implies #[trigger] row_of_kind(g0[i], t) by {
                assert(row_of_kind(g[i], t));
            }
            assert(row_of_kind(g[g.len() - 1], t));
        }
    }
}

/// Line clearing keeps every falling cell, of its kind.
pub proof fn law_clearing_keeps_falling_cells(g: Grid, t: MinoType)
    ensures
        falling_count(cleared_lines(g)) == falling_count(g),
        falling_of_kind(g, t) ==> falling_of_kind(cleared_lines(g), t),
{
    g.lemma_filter_len(|row: Seq<BlockType>| !row_full(row));
    let b = g.len() - kept_rows(g).len();
    lemma_falling_count_concat(blank_rows(b), kept_rows(g));
    lemma_blank_not_falling(b);
    lemma_kept_rows_falling(g, t);
    if falling_of_kind(g, t) {
        assert forall|i: int| 0 <= i < g.len() implies #[trigger] row_of_kind(g[i], t) by {
            assert forall|j: int| 0 <= j < g[i].len() && (#[trigger] g[i][j] is MinoInMotion) implies g[i][j]
                == BlockType::MinoInMotion(t) by {
                assert(in_field(g, i, j));
            }
        }
        let c = cleared_lines(g);
        assert forall|i: int, j: int| #[trigger] in_field(c, i, j) && c[i][j] is MinoInMotion implies c[i][j]
            == BlockType::MinoInMotion(t) by {
            if i >= b {
                assert(c[i] == kept_rows(g)[i - b]);
                assert(row_of_kind(kept_rows(g)[i - b], t));
            }
        }
    }
}

/// Two grids of the same dimensions whose falling cells are the same cells.
pub open spec fn same_falling(a: Grid, b: Grid) -> bool {
    &&& same_dims(a, b)
    &&& forall|i: int, j: int| #[trigger] in_field(a, i, j) && (a[i][j] is MinoInMotion || b[i][j] is MinoInMotion)
        ==> a[i][j] == b[i][j]
}

/// Grids with the same falling cells have as many, of the same kind.
proof fn lemma_same_falling_count(a: Grid, b: Grid, t: MinoType)
    requires
        same_falling(a, b),
    ensures
        falling_count(a) == falling_count(b),
        falling_of_kind(b, t) ==> falling_of_kind(a, t),
    decreases a.len(),
{
    if a.len() > 0 {
        let n = a.len() - 1;
        assert(same_falling(a.drop_last(), b.drop_last())) by {
            assert forall|i: int, j: int| #[trigger] in_field(a.drop_last(), i, j) && (a.drop_last()[i][j] is MinoInMotion
                || b.drop_last()[i][j] is MinoInMotion) implies a.drop_last()[i][j] == b.drop_last()[i][j] by {
                assert(in_field(a, i, j));
            }
        }
        lemma_same_falling_count(a.drop_last(), b.drop_last(), t);
        assert forall|j: int| 0 <= j < a[n].len() implies (#[trigger] a[n][j] is MinoInMotion) == (
        b[n][j] is MinoInMotion) by {
            assert(in_field(a, n, j));
        }
        lemma_row_falling_same(a[n], b[n]);
    }
    if falling_of_kind(b, t) {
        assert forall|i: int, j: int| #[trigger] in_field(a, i, j) && a[i][j] is MinoInMotion implies a[i][j]
            == BlockType::MinoInMotion(t) by {
            assert(in_field(b, i, j));
        }
    }
}

/// Rows with falling cells at the same places have as many falling cells.
proof fn lemma_row_falling_same(a: Seq<BlockType>, b: Seq<BlockType>)
    requires
        a.len() == b.len(),
        forall|j: int| 0 <= j < a.len() ==> (#[trigger] a[j] is MinoInMotion) == (b[j] is MinoInMotion),
    ensures
        row_falling(a) == row_falling(b),
    decreases a.len(),
{
    if a.len() > 0 {
        lemma_row_falling_same(a.drop_last(), b.drop_last());
        assert(a.last() == a[a.len() - 1]);
    }
}

/// Drawing the ghost leaves the falling cells as they are.
proof fn lemma_ghost_falling(m: MinoView)
    ensures
        same_falling(m.with_ghost().field, m.field),
{
    let h = m.with_ghost().field;
    assert(same_dims(h, m.field));
    assert forall|i: int, j: int| #[trigger] in_field(h, i, j) && (h[i][j] is MinoInMotion
        || m.field[i][j] is MinoInMotion) implies h[i][j] == m.field[i][j] by {
    }
}


/// A falling piece whose field holds exactly four falling cells, all of its kind.
pub open spec fn four_falling(m: MinoView) -> bool {
    &&& m.state == MinoState::InMotion
    &&& falling_count(m.field) == 4
    &&& falling_of_kind(m.field, m.mino_type)
}

/// Within a frame: a next piece is waiting to enter, or the piece is falling
/// with exactly four falling cells of its kind.
pub open spec fn four_or_next(g: GameView) -> bool {
    g.next is Some || four_falling(g.mino)
}

/// Moving a falling piece to a place where it fits leaves four falling cells of its kind.
proof fn lemma_moved_to_four(m: MinoView, x: int, y: int, d: MinoDirection)
    requires
        m.state == MinoState::InMotion,
        m.can_place(x, y, d),
    ensures
        four_falling(m.moved_to(x, y, d)),
{
    lemma_placed_four(m.field, m.mino_type, d, x, y);
}

/// A move request other than a lock keeps four falling cells of the piece's kind.
proof fn lemma_moved_four(m: MinoView, msg: MoveMessage)
    requires
        four_falling(m),
        msg != MoveMessage::Fix,
    ensures
        four_falling(m.moved(msg).0),
{
    let rt = match msg {
        MoveMessage::RotateRight => RotationType::RotateRight,
        MoveMessage::RotateLeft => RotationType::RotateLeft,
        _ => RotationType::Rotate180,
    };
    match msg {
        MoveMessage::Left => {
            if m.can_place(m.x - 1, m.y, m.direction) {
                lemma_moved_to_four(m, m.x - 1, m.y, m.direction);
            }
        },
        MoveMessage::Right => {
            if m.can_place(m.x + 1, m.y, m.direction) {
                lemma_moved_to_four(m, m.x + 1, m.y, m.direction);
            }
        },
        MoveMessage::Down => {
            if m.can_place(m.x, m.y + 1, m.direction) {
                lemma_moved_to_four(m, m.x, m.y + 1, m.direction);
            }
        },
        _ => {
            lemma_first_kick(m, rt, 0);
            if m.does_rotate {
                if let Some(k) = m.first_kick(rt, 0) {
                    lemma_moved_to_four(m, m.kick_x(rt, k), m.kick_y(rt, k), target_direction(m.direction, rt));
                }
            }
        },
    }
}

/// Dropping a falling piece to the bottom keeps four falling cells of its kind.
proof fn lemma_hard_dropped_four(m: MinoView)
    requires
        four_falling(m),
    ensures
        four_falling(m.hard_dropped()),
    decreases m.field.len() - m.y,
{
    if m.can_place(m.x, m.y + 1, m.direction) {
        lemma_shape_has_inner_cell(m.mino_type, m.direction);
        lemma_moved_to_four(m, m.x, m.y + 1, m.direction);
        lemma_hard_dropped_four(m.moved_to(m.x, m.y + 1, m.direction));
    }
}

/// A key phase that is handed a piece whenever it deals one keeps a next
/// piece waiting or four falling cells of the piece's kind.
proof fn lemma_key_phase_four(g: GameView, key: KeyType, now: u64, drawn: Option<MinoType>)
    requires
        four_or_next(g),
        key_draws(g, key) ==> drawn is Some,
    ensures
        four_or_next(key_phase(g, key, now, drawn)),
{
    reveal(key_phase);
    if g.next is None {
        match key {
            KeyType::Left => lemma_moved_four(g.mino, MoveMessage::Left),
            KeyType::Right => lemma_moved_four(g.mino, MoveMessage::Right),
            KeyType::RotateRight => lemma_moved_four(g.mino, MoveMessage::RotateRight),
            KeyType::RotateLeft => lemma_moved_four(g.mino, MoveMessage::RotateLeft),
            KeyType::Rotate180 => lemma_moved_four(g.mino, MoveMessage::Rotate180),
            _ => {},
        }
    }
}

/// The timed phases keep a next piece waiting or four falling cells of the piece's kind.
proof fn lemma_judge_four(g: GameView, now: u64)
    requires
        four_or_next(g),
    ensures
        four_or_next(judge_phases(g, now)),
        judge_phases(g, now).next == g.next,
{
    reveal(judge_phases);
    if g.next is None {
        let a = soft_drop_phase(g, now);
        if g.is_in_soft_drop {
            if g.settings.soft_drop_ms == 0 {
                lemma_hard_dropped_four(g.mino);
            } else {
                lemma_moved_four(g.mino, MoveMessage::Down);
            }
        }
        let b = das_phase(a, now);
        lemma_moved_four(b.mino, MoveMessage::Right);
        lemma_moved_four(b.mino, MoveMessage::Left);
        let c = arr_phase(b, now);
        lemma_moved_four(c.mino, MoveMessage::Down);
    }
}

/// After a frame that does not end the game, the field holds exactly four
/// falling cells, all of the kind of the (possibly new) falling piece, when
/// it did so before the frame.
pub proof fn law_frame_keeps_four_falling_cells(g: GameView, now: u64, stream: Seq<MinoType>)
    requires
        !g.is_finished,
        four_falling(g.mino),
    ensures
        !frame(g, now, stream).0.is_finished ==> four_falling(frame(g, now, stream).0.mino),
{
    let g1 = key_phase(g, KeyType::Left, now, None);
    let g2 = key_phase(g1, KeyType::Right, now, None);
    let g3 = key_phase(g2, KeyType::RotateRight, now, None);
    let g4 = key_phase(g3, KeyType::RotateLeft, now, None);
    let g5 = key_phase(g4, KeyType::Rotate180, now, None);
    lemma_key_phase_four(g, KeyType::Left, now, None);
    lemma_key_phase_four(g1, KeyType::Right, now, None);
    lemma_key_phase_four(g2, KeyType::RotateRight, now, None);
    lemma_key_phase_four(g3, KeyType::RotateLeft, now, None);
    lemma_key_phase_four(g4, KeyType::Rotate180, now, None);
    assert(early_keys(g, now) == g5);
    let dh = deal(key_draws(g5, KeyType::HardDrop), stream, 0);
    let g6 = key_phase(g5, KeyType::HardDrop, now, dh);
    lemma_key_phase_four(g5, KeyType::HardDrop, now, dh);
    let g7 = key_phase(g6, KeyType::SoftDrop, now, None);
    lemma_key_phase_four(g6, KeyType::SoftDrop, now, None);
    assert(before_hold(g, now, dh) == g7);
    let k1 = opt_seq(dh).len() as int;
    let dd = deal(key_draws(g7, KeyType::Hold), stream, k1);
    let g8 = key_phase(g7, KeyType::Hold, now, dd);
    lemma_key_phase_four(g7, KeyType::Hold, now, dd);
    assert(keys_part(g, now, dh, dd) == g8);
    let k2 = k1 + opt_seq(dd).len();
    lemma_judge_four(g8, now);
    let g9 = judge_phases(g8, now);
    let dl = deal(lock_draws(g9, now), stream, k2);
    let k3 = k2 + opt_seq(dl).len();
    let g10 = lock_phase(g9, now, dl);
    reveal(lock_phase);
    let dm = deal(limit_draws(g10), stream, k3);
    let g11 = limit_phase(g10, dm);
    reveal(limit_phase);
    assert(locks_part(g8, now, dl, dm) == g11);
    let g12 = ghost_phase(g11, g.mino.field);
    reveal(ghost_phase);
    if g11.next is None {
        lemma_ghost_falling(g11.mino);
        lemma_same_falling_count(g12.mino.field, g11.mino.field, g11.mino.mino_type);
    }
    assert(four_or_next(g12));
    reveal(spawn_phase);
    if let Some(n) = g12.next {
        if fits(g12.mino.field, n, MinoDirection::North, APPEARANCE_X as int, APPEARANCE_Y as int) {
            let f = spawned(g12.mino.field, n).field;
            lemma_placed_four(g12.mino.field, n, MinoDirection::North, APPEARANCE_X as int, APPEARANCE_Y as int);
            law_clearing_keeps_falling_cells(f, n);
        }
    }
}


/// A new game starts with exactly four falling cells, all of its piece's kind.
pub proof fn law_new_game_four_falling(t: MinoType)
    ensures
        four_falling(initial_game(t).mino),
{
    lemma_fits_empty(t);
    lemma_placed_four(
        empty_grid(HEIGHT as int, WIDTH as int),
        t,
        MinoDirection::North,
        APPEARANCE_X as int,
        APPEARANCE_Y as int,
    );
}


/// The offset data of the Super Rotation System for one direction of a
/// piece: five offsets, one per test, in the same `(dx, dy)` form as the
/// kicks (the I piece has its own data).
pub open spec fn srs_offset(is_i: bool, d: MinoDirection) -> Seq<(int, int)> {
    if is_i {
        match d {
            MinoDirection::North => seq![(0, 0), (-1, 0), (2, 0), (-1, 0), (2, 0)],
            MinoDirection::East => seq![(-1, 0), (0, 0), (0, 0), (0, 1), (0, -2)],
            MinoDirection::South => seq![(-1, 1), (1, 1), (-2, 1), (1, 0), (-2, 0)],
            MinoDirection::West => seq![(0, 1), (0, 1), (0, 1), (0, -1), (0, 2)],
        }
    } else {
        match d {
            MinoDirection::East => seq![(0, 0), (1, 0), (1, -1), (0, 2), (1, 2)],
            MinoDirection::West => seq![(0, 0), (-1, 0), (-1, -1), (0, 2), (-1, 2)],
            _ => seq![(0, 0), (0, 0), (0, 0), (0, 0), (0, 0)],
        }
    }
}

/// Where the I piece's true centre of rotation lies in its 4x4 box in each
/// direction, relative to the box in the North direction; the other pieces
/// turn about the centre of their box, so theirs is zero.
pub open spec fn box_shift(is_i: bool, d: MinoDirection) -> (int, int) {
    if is_i {
        match d {
            MinoDirection::North => (0, 0),
            MinoDirection::East => (1, 0),
            MinoDirection::South => (1, -1),
            MinoDirection::West => (0, -1),
        }
    } else {
        (0, 0)
    }
}

/// The wall kicks of a quarter turn follow the Super Rotation System: five
/// tests, and test `k` from direction `a` to direction `b` moves the piece by
/// the offset of `a` minus the offset of `b` (plus the shift of the I piece's
/// box). So a clockwise turn of a non-I piece from East tries, in order,
/// (0,0), (1,0), (1,-1), (0,2), (1,2): away from the left wall.
pub proof fn law_quarter_turn_kicks(is_i: bool, rt: RotationType, from: MinoDirection, k: int)
    requires
        rt != RotationType::Rotate180,
        0 <= k < 5,
    ensures
        kick_table(is_i, rt, from).len() == 5,
        ({
            let to = target_direction(from, rt);
            kick_table(is_i, rt, from)[k] == (
                srs_offset(is_i, from)[k].0 - srs_offset(is_i, to)[k].0 + box_shift(is_i, from).0
                    - box_shift(is_i, to).0,
                srs_offset(is_i, from)[k].1 - srs_offset(is_i, to)[k].1 + box_shift(is_i, from).1
                    - box_shift(is_i, to).1,
            )
        }),
{
    assert(0 <= k < 5);
    if k == 0 {
    } else if k == 1 {
    } else if k == 2 {
    } else if k == 3 {
    } else {
    }
}

/// A quarter turn one way and back again try opposite kicks: test `k` of a
/// turn from `a` to `b` is the reverse of test `k` of the turn from `b` back to `a`.
pub proof fn law_quarter_turn_kicks_reverse(is_i: bool, from: MinoDirection, k: int)
    requires
        0 <= k < 5,
    ensures
        kick_table(is_i, RotationType::RotateRight, from)[k].0 == -kick_table(
            is_i,
            RotationType::RotateLeft,
            target_direction(from, RotationType::RotateRight),
        )[k].0,
        kick_table(is_i, RotationType::RotateRight, from)[k].1 == -kick_table(
            is_i,
            RotationType::RotateLeft,
            target_direction(from, RotationType::RotateRight),
        )[k].1,
{
    law_quarter_turn_kicks(is_i, RotationType::RotateRight, from, k);
    law_quarter_turn_kicks(
        is_i,
        RotationType::RotateLeft,
        target_direction(from, RotationType::RotateRight),
        k,
    );
    crate::block::lemma_turns_undo(from);
}

/// The kicks of a half turn are symmetric: from South they are those from
/// North reversed, and from West they are those from East mirrored left to
/// right.
pub proof fn law_half_turn_kicks_symmetric(is_i: bool, k: int)
    requires
        0 <= k < kick_table(is_i, RotationType::Rotate180, MinoDirection::North).len(),
    ensures
        kick_table(is_i, RotationType::Rotate180, MinoDirection::South).len() == kick_table(
            is_i,
            RotationType::Rotate180,
            MinoDirection::North,
        ).len(),
        kick_table(is_i, RotationType::Rotate180, MinoDirection::West).len() == kick_table(
            is_i,
            RotationType::Rotate180,
            MinoDirection::East,
        ).len(),
        kick_table(is_i, RotationType::Rotate180, MinoDirection::South)[k] == (
            -kick_table(is_i, RotationType::Rotate180, MinoDirection::North)[k].0,
            -kick_table(is_i, RotationType::Rotate180, MinoDirection::North)[k].1,
        ),
        kick_table(is_i, RotationType::Rotate180, MinoDirection::West)[k] == (
            -kick_table(is_i, RotationType::Rotate180, MinoDirection::East)[k].0,
            kick_table(is_i, RotationType::Rotate180, MinoDirection::East)[k].1,
        ),
{
}

/// Auto repeat moves toward the held key: once the shift delay has passed
/// (more than `das_ms` since it started) and a repeat is due (none yet, or
/// more than `arr_ms` since the last), the piece moves one column right for
/// a right repeat and one column left for a left repeat if it fits there, and
/// stays where it is otherwise; its row and direction do not change.
pub proof fn law_auto_repeat_direction(g: GameView, now: u64, s: u64)
    requires
        g.start_waiting_das == Some(s),
        s <= now,
        now - s > g.settings.das_ms,
        match g.last_arr_execute {
            None => true,
            Some(a) => a <= now && now - a > g.settings.arr_ms,
        },
        g.arr_direction_is_right is Some,
    ensures
        ({
            let dx: int = if g.arr_direction_is_right == Some(true) {
                1
            } else {
                -1
            };
            let m = arr_phase(g, now).mino;
            &&& m.x == (if g.mino.can_place(g.mino.x + dx, g.mino.y, g.mino.direction) {
                g.mino.x + dx
            } else {
                g.mino.x
            })
            &&& m.y == g.mino.y
            &&& m.direction == g.mino.direction
            &&& arr_phase(g, now).last_arr_execute == Some(now)
        }),
{
}

/// Auto repeat does nothing before the shift delay has passed or while a
/// repeat is not yet due.
pub proof fn law_auto_repeat_waits(g: GameView, now: u64)
    requires
        match g.start_waiting_das {
            None => true,
            Some(s) => now < s || now - s <= g.settings.das_ms,
        } || match g.last_arr_execute {
            None => false,
            Some(a) => now < a || now - a <= g.settings.arr_ms,
        },
    ensures
        arr_phase(g, now) == g,
{
}

/// The lock delay does not lock a piece that was moved within the lock delay
/// (at most `lockdown_ms` before `now`), nor one that has not rested on the
/// ground for longer than that: the lock phase then changes nothing and deals
/// no piece.
pub proof fn law_lock_waits(g: GameView, now: u64, drawn: Option<MinoType>)
    requires
        match g.last_move_execute {
            None => false,
            Some(t) => now < t || now - t <= g.settings.lockdown_ms,
        } || match g.first_hitting_ground {
            None => true,
            Some(s) => now < s || now - s <= g.settings.lockdown_ms,
        },
    ensures
        !lock_draws(g, now),
        lock_phase(g, now, drawn) == g,
{
    reveal(lock_phase);
}

/// The lock delay locks a piece that has rested on the ground, and not been
/// moved, for longer than the lock delay: the piece is locked where it stands
/// and the dealt piece is next.
pub proof fn law_lock_after_rest(g: GameView, now: u64, s: u64, drawn: Option<MinoType>)
    requires
        g.first_hitting_ground == Some(s),
        s <= now,
        now - s > g.settings.lockdown_ms,
        match g.last_move_execute {
            None => true,
            Some(t) => t <= now && now - t > g.settings.lockdown_ms,
        },
    ensures
        lock_draws(g, now),
        lock_phase(g, now, drawn) == (GameView { mino: g.mino.fixed().0, next: drawn, ..g }),
{
    reveal(lock_phase);
}

} // verus!
