//! The game: the keys' states, the falling piece in its field, the held and
//! the next piece, the timers, and one frame of the game loop.

use vstd::prelude::*;
use crate::block::{
    APPEARANCE_X, APPEARANCE_Y, HEIGHT, WIDTH, KeyStatePlus, Settings, default_settings, KeyType, MinoDirection, MinoType, MoveMessage, key_index, key_slot,
};
use crate::block::BlockType;
use crate::field::{
    Grid, cleared_lines, clear_lines, copy_grid, empty_grid, grid, lemma_cleared_shape, lemma_empty_shape,
    same_grid, standard_shape,
};
use crate::mino::{
    Mino, MinoView, fits, placed, same_dims, spawned, within, lemma_fits_bounds, lemma_moved_to_sane,
    lemma_stamped_dims, lemma_standard_same_dims, lemma_within_same_dims,
};
use crate::generator::{
    RandomGenerator, bag_aligned, extends_by_bags, is_bags, len_after_deals, lemma_bags_concat,
    lemma_len_after_deals_add, lemma_topped_len, topped_len,
};

verus! {

/// Milliseconds from `since` to `now`; zero if `since` is later.
pub open spec fn elapsed(now: u64, since: u64) -> int {
    if now >= since {
        now - since
    } else {
        0
    }
}

/// Whether a timer is set and more than `d` milliseconds have passed since it.
pub open spec fn expired(t: Option<u64>, now: u64, d: u64) -> bool {
    match t {
        Some(s) => elapsed(now, s) > d,
        None => false,
    }
}

/// Whether a timer is unset, or more than `d` milliseconds have passed since it.
pub open spec fn due(t: Option<u64>, now: u64, d: u64) -> bool {
    t is None || expired(t, now, d)
}

/// The game as mathematical values (all but the piece generator).
pub struct GameView {
    pub is_finished: bool,
    /// The timing settings that the frames read.
    pub settings: Settings,
    /// The state of each key, in the order of `key_order`.
    pub keys: Seq<KeyStatePlus>,
    pub mino: MinoView,
    pub hold: Option<MinoType>,
    pub next: Option<MinoType>,
    pub is_hold_executed: bool,
    pub last_down_executed: Option<u64>,
    pub start_left_pressing: Option<u64>,
    pub start_right_pressing: Option<u64>,
    pub start_waiting_das: Option<u64>,
    pub arr_direction_is_right: Option<bool>,
    pub last_arr_execute: Option<u64>,
    pub is_in_soft_drop: bool,
    pub last_soft_drop_execute: Option<u64>,
    pub last_move_execute: Option<u64>,
    pub move_count: int,
    pub first_hitting_ground: Option<u64>,
}

/// The invariant of a game: a state for each key, and the piece within its
/// field of the standard size.
pub open spec fn game_ok(g: GameView) -> bool {
    &&& g.keys.len() == 8
    &&& g.mino.sane()
    &&& g.mino.placed_within()
    &&& standard_shape(g.mino.field)
}

/// After a step that may have moved the piece: if the piece reached a new
/// lowest row, the move count and the ground timer start over.
pub open spec fn reset_on_new_low(before: GameView, after: GameView) -> GameView {
    if before.mino.minimum_y < after.mino.minimum_y {
        GameView { move_count: 0, first_hitting_ground: None, ..after }
    } else {
        after
    }
}

/// The game with the piece replaced.
pub open spec fn with_mino(g: GameView, m: MinoView) -> GameView {
    GameView { mino: m, ..g }
}

/// Whether handling a key deals a piece from the generator: a hard drop does,
/// and so does the first hold of a piece when nothing is held yet.
pub open spec fn key_draws(g: GameView, key: KeyType) -> bool {
    let du = g.keys[key_index(key)] == KeyStatePlus::DownUnprocessed;
    match key {
        KeyType::HardDrop => du,
        KeyType::Hold => du && !g.is_hold_executed && g.hold is None,
        _ => false,
    }
}

/// Whether handling the hold key swaps the piece in this frame.
pub open spec fn holds_now(g: GameView) -> bool {
    g.keys[key_index(KeyType::Hold)] == KeyStatePlus::DownUnprocessed && !g.is_hold_executed
}

/// What handling one key does, before its state is marked handled: the game
/// after it, and whether the piece moved or turned. `drawn` is the piece dealt,
/// if handling the key deals one.
pub open spec fn key_effect(g: GameView, key: KeyType, now: u64, drawn: Option<MinoType>) -> (
    GameView,
    bool,
) {
    let ks = g.keys[key_index(key)];
    let du = ks == KeyStatePlus::DownUnprocessed;
    match key {
        KeyType::Hold => if du && !g.is_hold_executed {
            (
                GameView {
                    hold: Some(g.mino.mino_type),
                    next: match g.hold {
                        Some(h) => Some(h),
                        None => drawn,
                    },
                    ..g
                },
                false,
            )
        } else {
            (g, false)
        },
        KeyType::HardDrop => if du {
            (GameView { mino: g.mino.hard_dropped().fixed().0, next: drawn, ..g }, false)
        } else {
            (g, false)
        },
        KeyType::RotateLeft => if du {
            (with_mino(g, g.mino.moved(MoveMessage::RotateLeft).0), g.mino.moved(
                MoveMessage::RotateLeft,
            ).1)
        } else {
            (g, false)
        },
        KeyType::RotateRight => if du {
            (with_mino(g, g.mino.moved(MoveMessage::RotateRight).0), g.mino.moved(
                MoveMessage::RotateRight,
            ).1)
        } else {
            (g, false)
        },
        KeyType::Rotate180 => if du {
            (with_mino(g, g.mino.moved(MoveMessage::Rotate180).0), g.mino.moved(
                MoveMessage::Rotate180,
            ).1)
        } else {
            (g, false)
        },
        KeyType::Left => if du {
            (
                GameView {
                    start_left_pressing: Some(now),
                    mino: g.mino.moved(MoveMessage::Left).0,
                    ..g
                },
                g.mino.moved(MoveMessage::Left).1,
            )
        } else if ks == KeyStatePlus::Up {
            (GameView { start_left_pressing: None, ..g }, false)
        } else {
            (g, false)
        },
        KeyType::Right => if du {
            (
                GameView {
                    start_right_pressing: Some(now),
                    mino: g.mino.moved(MoveMessage::Right).0,
                    ..g
                },
                g.mino.moved(MoveMessage::Right).1,
            )
        } else if ks == KeyStatePlus::Up {
            (GameView { start_right_pressing: None, ..g }, false)
        } else {
            (g, false)
        },
        KeyType::SoftDrop => (GameView { is_in_soft_drop: ks != KeyStatePlus::Up, ..g }, false),
    }
}

/// One key handled in a frame: its effect, its state marked handled if it was
/// pressed and not yet handled, the move recorded if the piece moved, and the
/// move count and ground timer reset if the piece reached a new lowest row.
#[verifier::opaque]
pub open spec fn key_phase(g: GameView, key: KeyType, now: u64, drawn: Option<MinoType>) -> GameView {
    let (g1, moved) = key_effect(g, key, now, drawn);
    let g2 = if g.keys[key_index(key)] == KeyStatePlus::DownUnprocessed {
        GameView {
            keys: g1.keys.update(key_index(key), KeyStatePlus::DownProcessed),
            ..g1
        }
    } else {
        g1
    };
    let g3 = if moved {
        GameView { last_move_execute: Some(now), move_count: g2.move_count + 1, ..g2 }
    } else {
        g2
    };
    reset_on_new_low(g, g3)
}

/// Soft drop: while the key is held the piece drops to the bottom at once
/// (with a zero soft-drop interval) or one row per interval.
pub open spec fn soft_drop_phase(g: GameView, now: u64) -> GameView {
    if g.is_in_soft_drop {
        let m = if g.settings.soft_drop_ms == 0 {
            g.mino.hard_dropped()
        } else if due(g.last_soft_drop_execute, now, g.settings.soft_drop_ms) {
            g.mino.moved(MoveMessage::Down).0
        } else {
            g.mino
        };
        let g1 = reset_on_new_low(g, with_mino(g, m));
        GameView { last_soft_drop_execute: Some(now), ..g1 }
    } else {
        g
    }
}

/// Delayed auto shift: with exactly one of the sideways keys held, the delay
/// starts (if it has not) and the repeat direction is that key's; otherwise
/// both are cleared.
pub open spec fn das_phase(g: GameView, now: u64) -> GameView {
    if (g.start_left_pressing is Some && g.start_right_pressing is Some) || (
    g.start_left_pressing is None && g.start_right_pressing is None) {
        GameView { start_waiting_das: None, arr_direction_is_right: None, ..g }
    } else {
        GameView {
            start_waiting_das: if g.start_waiting_das is None {
                Some(now)
            } else {
                g.start_waiting_das
            },
            arr_direction_is_right: Some(g.start_right_pressing is Some),
            ..g
        }
    }
}

/// Auto repeat: once the shift delay has passed, the piece moves one column
/// in the repeat direction per repeat interval.
pub open spec fn arr_phase(g: GameView, now: u64) -> GameView {
    if expired(g.start_waiting_das, now, g.settings.das_ms) && due(g.last_arr_execute, now, g.settings.arr_ms) {
        let msg = if g.arr_direction_is_right == Some(true) {
            MoveMessage::Right
        } else {
            MoveMessage::Left
        };
        let (m, ok) = g.mino.moved(msg);
        GameView {
            mino: m,
            move_count: if ok {
                g.move_count + 1
            } else {
                g.move_count
            },
            last_arr_execute: Some(now),
            ..g
        }
    } else {
        g
    }
}

/// Gravity: once per gravity interval the piece moves one row down.
pub open spec fn gravity_phase(g: GameView, now: u64) -> GameView {
    if due(g.last_down_executed, now, g.settings.gravity_ms) {
        let g1 = reset_on_new_low(g, with_mino(g, g.mino.moved(MoveMessage::Down).0));
        GameView { last_down_executed: Some(now), ..g1 }
    } else {
        g
    }
}

/// The ground timer starts when the piece first rests on something and is
/// cleared when it does not.
pub open spec fn ground_phase(g: GameView, now: u64) -> GameView {
    if !g.mino.can_place(g.mino.x, g.mino.y + 1, g.mino.direction) {
        if g.first_hitting_ground is None {
            GameView { first_hitting_ground: Some(now), ..g }
        } else {
            g
        }
    } else {
        GameView { first_hitting_ground: None, ..g }
    }
}

/// Whether the lock delay locks the piece: it has rested for longer than the
/// lock delay, and has not moved for that long either.
pub open spec fn lock_draws(g: GameView, now: u64) -> bool {
    expired(g.first_hitting_ground, now, g.settings.lockdown_ms) && due(g.last_move_execute, now, g.settings.lockdown_ms)
}

/// The lock delay: locks the piece and takes `drawn` as the next piece.
#[verifier::opaque]
pub open spec fn lock_phase(g: GameView, now: u64, drawn: Option<MinoType>) -> GameView {
    if lock_draws(g, now) {
        GameView { mino: g.mino.fixed().0, next: drawn, ..g }
    } else {
        g
    }
}

/// Whether the move limit locks the piece: it rests on something after at
/// least the move limit of moves.
pub open spec fn limit_draws(g: GameView) -> bool {
    g.move_count >= g.settings.move_count_limit && g.first_hitting_ground is Some
}

/// The move limit: locks the piece and takes `drawn` as the next piece.
#[verifier::opaque]
pub open spec fn limit_phase(g: GameView, drawn: Option<MinoType>) -> GameView {
    if limit_draws(g) {
        GameView { mino: g.mino.fixed().0, next: drawn, ..g }
    } else {
        g
    }
}

/// The ghost is redrawn when the field differs from the field at the start of the frame.
#[verifier::opaque]
pub open spec fn ghost_phase(g: GameView, start_field: Grid) -> GameView {
    if g.mino.field != start_field {
        with_mino(g, g.mino.with_ghost())
    } else {
        g
    }
}

/// The next piece, if there is one, enters: the timers and the move count
/// start over, holding is allowed again unless this frame's hold brought the
/// piece, and full lines are cleared; if the new piece does not fit, the game
/// is over and the old piece stays.
#[verifier::opaque]
pub open spec fn spawn_phase(g: GameView, held_now: bool) -> GameView {
    match g.next {
        None => g,
        Some(n) => {
            let base = GameView {
                next: None,
                is_hold_executed: held_now,
                last_down_executed: None,
                last_move_execute: None,
                move_count: 0,
                first_hitting_ground: None,
                ..g
            };
            if fits(g.mino.field, n, MinoDirection::North, APPEARANCE_X as int, APPEARANCE_Y as int) {
                let m = spawned(g.mino.field, n);
                with_mino(base, MinoView { field: cleared_lines(m.field), ..m })
            } else {
                GameView { is_finished: true, ..base }
            }
        },
    }
}

/// The piece dealt at position `k` of `stream` when `draws`, else none.
pub open spec fn deal(draws: bool, stream: Seq<MinoType>, k: int) -> Option<MinoType> {
    if draws {
        Some(stream[k])
    } else {
        None
    }
}

/// The keys handled before the hard drop, in order.
pub open spec fn early_keys(g: GameView, now: u64) -> GameView {
    let g1 = key_phase(g, KeyType::Left, now, None);
    let g2 = key_phase(g1, KeyType::Right, now, None);
    let g3 = key_phase(g2, KeyType::RotateRight, now, None);
    let g4 = key_phase(g3, KeyType::RotateLeft, now, None);
    key_phase(g4, KeyType::Rotate180, now, None)
}

/// The phases of a frame after the keys, up to the lock checks.
#[verifier::opaque]
pub open spec fn judge_phases(g: GameView, now: u64) -> GameView {
    ground_phase(gravity_phase(arr_phase(das_phase(soft_drop_phase(g, now), now), now), now), now)
}

/// The pieces that a phase dealt, as a sequence.
pub open spec fn opt_seq(d: Option<MinoType>) -> Seq<MinoType> {
    match d {
        Some(x) => seq![x],
        None => Seq::empty(),
    }
}

/// The game after its keys are handled in a frame: `dh` and `dd` are the
/// pieces that the hard drop and the hold dealt, if they dealt any.
pub open spec fn keys_part(g: GameView, now: u64, dh: Option<MinoType>, dd: Option<MinoType>) -> GameView {
    key_phase(before_hold(g, now, dh), KeyType::Hold, now, dd)
}

/// The game just before the hold key is handled in a frame.
pub open spec fn before_hold(g: GameView, now: u64, dh: Option<MinoType>) -> GameView {
    key_phase(key_phase(early_keys(g, now), KeyType::HardDrop, now, dh), KeyType::SoftDrop, now, None)
}

/// The game after the timed phases and the lock checks of a frame: `dl` and
/// `dm` are the pieces that the lock delay and the move limit dealt, if any.
pub open spec fn locks_part(g: GameView, now: u64, dl: Option<MinoType>, dm: Option<MinoType>) -> GameView {
    limit_phase(lock_phase(judge_phases(g, now), now, dl), dm)
}

/// One frame of the game at time `now`, with the pieces dealt taken from
/// `stream` in order: the game after it, and how many pieces were dealt.
/// A finished game stays as it is.
pub open spec fn frame(g: GameView, now: u64, stream: Seq<MinoType>) -> (GameView, int) {
    if g.is_finished {
        (g, 0)
    } else {
        let dh = deal(key_draws(early_keys(g, now), KeyType::HardDrop), stream, 0);
        let k1 = opt_seq(dh).len() as int;
        let g7 = before_hold(g, now, dh);
        let dd = deal(key_draws(g7, KeyType::Hold), stream, k1);
        let k2 = k1 + opt_seq(dd).len();
        let g8 = keys_part(g, now, dh, dd);
        let g9 = judge_phases(g8, now);
        let dl = deal(lock_draws(g9, now), stream, k2);
        let k3 = k2 + opt_seq(dl).len();
        let dm = deal(limit_draws(lock_phase(g9, now, dl)), stream, k3);
        let k4 = k3 + opt_seq(dm).len();
        let g11 = locks_part(g8, now, dl, dm);
        (spawn_phase(ghost_phase(g11, g.mino.field), holds_now(g7)), k4)
    }
}

/// What dealing at most one piece does to the generator: with no piece
/// dealt, nothing; with piece `d` dealt, the old stock followed by whole bags is
/// `d` followed by the new stock, where bags were added only if the stock was
/// short and then as few as needed.
pub open spec fn gen_step(a: RandomGenerator, b: RandomGenerator, drawn: Option<MinoType>) -> bool {
    &&& b.min_items == a.min_items
    &&& bag_aligned(a.stock@) ==> bag_aligned(b.stock@)
    &&& match drawn {
        None => b.stock@ == a.stock@,
        Some(d) => {
            &&& extends_by_bags(a.stock@, seq![d] + b.stock@)
            &&& b.stock@.len() + 1 >= a.min_items
            &&& a.stock@.len() >= a.min_items ==> seq![d] + b.stock@ == a.stock@
            &&& a.stock@.len() < a.min_items ==> b.stock@.len() + 1 < a.min_items + 7
        },
    }
}

/// The timers, flags and pieces of a game besides the key states.
pub struct TetrisVariableContainer {
    pub mino: Mino,
    pub hold: Option<MinoType>,
    pub next: Option<MinoType>,
    pub is_hold_executed: bool,
    pub last_down_executed: Option<u64>,
    pub start_left_pressing: Option<u64>,
    pub start_right_pressing: Option<u64>,
    pub start_waiting_das: Option<u64>,
    pub arr_direction_is_right: Option<bool>,
    pub last_arr_execute: Option<u64>,
    pub is_in_soft_drop: bool,
    pub last_soft_drop_execute: Option<u64>,
    pub last_move_execute: Option<u64>,
    pub move_count_since_lockdown_execute: usize,
    pub first_hitting_ground: Option<u64>,
}

/// A game. Times are milliseconds on a clock that the caller chooses.
pub struct TetrisManager {
    pub is_finished: bool,
    /// The timing settings; a caller may change them between frames.
    pub settings: Settings,
    /// The state of each key, in the order of `key_order`.
    pub key_states: Vec<KeyStatePlus>,
    pub random_generator: RandomGenerator,
    pub tetris_variable_container: TetrisVariableContainer,
}

impl View for TetrisManager {
    type V = GameView;

    open spec fn view(&self) -> GameView {
        let v = self.tetris_variable_container;
        GameView {
            is_finished: self.is_finished,
            settings: self.settings,
            keys: self.key_states@,
            mino: v.mino@,
            hold: v.hold,
            next: v.next,
            is_hold_executed: v.is_hold_executed,
            last_down_executed: v.last_down_executed,
            start_left_pressing: v.start_left_pressing,
            start_right_pressing: v.start_right_pressing,
            start_waiting_das: v.start_waiting_das,
            arr_direction_is_right: v.arr_direction_is_right,
            last_arr_execute: v.last_arr_execute,
            is_in_soft_drop: v.is_in_soft_drop,
            last_soft_drop_execute: v.last_soft_drop_execute,
            last_move_execute: v.last_move_execute,
            move_count: v.move_count_since_lockdown_execute as int,
            first_hitting_ground: v.first_hitting_ground,
        }
    }
}

/// Whether a timer is set and more than `d` milliseconds have passed since it.
fn is_expired(t: Option<u64>, now: u64, d: u64) -> (r: bool)
    ensures
        r == expired(t, now, d),
{
    match t {
        Some(s) => {
            let passed = if now >= s {
                now - s
            } else {
                0
            };
            passed > d
        },
        None => false,
    }
}

/// Moves the piece down one row at a time for as long as it fits.
fn drop_to_floor(mino: &mut Mino)
    requires
        old(mino)@.sane(),
        old(mino)@.placed_within(),
    ensures
        final(mino)@ == old(mino)@.hard_dropped(),
        final(mino)@.sane(),
        final(mino)@.placed_within(),
        same_dims(final(mino)@.field, old(mino)@.field),
{
    let ghost target = mino@.hard_dropped();
    let ghost f0 = mino@.field;
    loop
        invariant
            mino@.sane(),
            mino@.placed_within(),
            same_dims(mino@.field, f0),
            mino@.hard_dropped() == target,
        ensures
            mino@ == target,
            mino@.sane(),
            mino@.placed_within(),
            same_dims(mino@.field, f0),
        decreases f0.len() - mino.y,
    {
        let ghost before = mino@;
        let r = mino.move_order(MoveMessage::Down);
        if r.is_err() {
            break;
        }
        proof {
            lemma_fits_bounds(before.field, before.mino_type, before.direction, before.x, before.y + 1);
        }
    }
}

/// Keeping the same dimensions as a field of the standard size keeps a game's
/// field of the standard size.
proof fn lemma_field_kept(a: Grid, b: Grid)
    requires
        same_dims(a, b),
        standard_shape(b),
    ensures
        standard_shape(a),
{
    lemma_standard_same_dims(a, b);
}

impl TetrisManager {
    /// The hold key, pressed and not yet handled, when no piece has been held
    /// since the last one entered: the piece is held, and the previously held
    /// piece (or a newly dealt one) is next.
    fn hold_key(&mut self) -> (drawn: Option<MinoType>)
        requires
            game_ok(old(self)@),
            old(self).random_generator.min_items > 0,
        ensures
            drawn is Some == (old(self)@.hold is None),
            final(self)@ == (GameView {
                hold: Some(old(self)@.mino.mino_type),
                next: match old(self)@.hold {
                    Some(h) => Some(h),
                    None => drawn,
                },
                ..old(self)@
            }),
            gen_step(old(self).random_generator, final(self).random_generator, drawn),
    {
        let current = self.tetris_variable_container.mino.mino_type;
        match self.tetris_variable_container.hold {
            Some(h) => {
                self.tetris_variable_container.hold = Some(current);
                self.tetris_variable_container.next = Some(h);
                None
            },
            None => {
                let n = self.random_generator.next();
                self.tetris_variable_container.hold = Some(current);
                self.tetris_variable_container.next = n;
                n
            },
        }
    }

    /// The hard-drop key, pressed and not yet handled: the piece drops to the
    /// bottom and locks, and a new piece is dealt as next.
    fn hard_drop_key(&mut self) -> (drawn: Option<MinoType>)
        requires
            game_ok(old(self)@),
            old(self).random_generator.min_items > 0,
        ensures
            drawn is Some,
            final(self)@ == (GameView {
                mino: old(self)@.mino.hard_dropped().fixed().0,
                next: drawn,
                ..old(self)@
            }),
            game_ok(final(self)@),
            gen_step(old(self).random_generator, final(self).random_generator, drawn),
    {
        let ghost g = self@;
        drop_to_floor(&mut self.tetris_variable_container.mino);
        let _ = self.tetris_variable_container.mino.fix();
        proof {
            lemma_field_kept(self@.mino.field, g.mino.field);
        }
        let n = self.random_generator.next();
        self.tetris_variable_container.next = n;
        n
    }

    /// Carries out a move request on the piece; whether it succeeded.
    fn move_piece(&mut self, msg: MoveMessage) -> (ok: bool)
        requires
            game_ok(old(self)@),
        ensures
            final(self)@ == with_mino(old(self)@, old(self)@.mino.moved(msg).0),
            ok == old(self)@.mino.moved(msg).1,
            game_ok(final(self)@),
            final(self).random_generator == old(self).random_generator,
    {
        let ghost g = self@;
        let r = self.tetris_variable_container.mino.move_order(msg);
        proof {
            lemma_field_kept(self@.mino.field, g.mino.field);
        }
        r.is_ok()
    }

    /// What handling one key does before its state is marked handled; gives
    /// the piece dealt, if any, and whether the piece moved.
    fn key_action(&mut self, key_type: KeyType, now: u64) -> (res: (Option<MinoType>, bool))
        requires
            game_ok(old(self)@),
            old(self).random_generator.min_items > 0,
        ensures
            res.0 is Some == key_draws(old(self)@, key_type),
            (final(self)@, res.1) == key_effect(old(self)@, key_type, now, res.0),
            game_ok(final(self)@),
            gen_step(old(self).random_generator, final(self).random_generator, res.0),
    {
        let i = key_slot(key_type);
        let key_state = self.key_states[i];
        let down = key_state == KeyStatePlus::DownUnprocessed;
        match key_type {
            KeyType::Hold => {
                if down && !self.tetris_variable_container.is_hold_executed {
                    let n = self.hold_key();
                    (n, false)
                } else {
                    (None, false)
                }
            },
            KeyType::HardDrop => {
                if down {
                    let n = self.hard_drop_key();
                    (n, false)
                } else {
                    (None, false)
                }
            },
            KeyType::RotateLeft => {
                if down {
                    (None, self.move_piece(MoveMessage::RotateLeft))
                } else {
                    (None, false)
                }
            },
            KeyType::RotateRight => {
                if down {
                    (None, self.move_piece(MoveMessage::RotateRight))
                } else {
                    (None, false)
                }
            },
            KeyType::Rotate180 => {
                if down {
                    (None, self.move_piece(MoveMessage::Rotate180))
                } else {
                    (None, false)
                }
            },
            KeyType::Left => {
                if down {
                    self.tetris_variable_container.start_left_pressing = Some(now);
                    (None, self.move_piece(MoveMessage::Left))
                } else if key_state == KeyStatePlus::Up {
                    self.tetris_variable_container.start_left_pressing = None;
                    (None, false)
                } else {
                    (None, false)
                }
            },
            KeyType::Right => {
                if down {
                    self.tetris_variable_container.start_right_pressing = Some(now);
                    (None, self.move_piece(MoveMessage::Right))
                } else if key_state == KeyStatePlus::Up {
                    self.tetris_variable_container.start_right_pressing = None;
                    (None, false)
                } else {
                    (None, false)
                }
            },
            KeyType::SoftDrop => {
                self.tetris_variable_container.is_in_soft_drop = key_state != KeyStatePlus::Up;
                (None, false)
            },
        }
    }

    /// Handles one key for a frame at time `now`; gives the piece dealt, if any.
    fn process_key(&mut self, key_type: KeyType, now: u64) -> (drawn: Option<MinoType>)
        requires
            game_ok(old(self)@),
            old(self).random_generator.min_items > 0,
            old(self)@.move_count < usize::MAX,
        ensures
            drawn is Some == key_draws(old(self)@, key_type),
            final(self)@ == key_phase(old(self)@, key_type, now, drawn),
            game_ok(final(self)@),
            gen_step(old(self).random_generator, final(self).random_generator, drawn),
            final(self)@.move_count <= old(self)@.move_count + 1,
    {
        reveal(key_phase);
        let i = key_slot(key_type);
        let previous_minimum_y = self.tetris_variable_container.mino.minimum_y;
        let down = self.key_states[i] == KeyStatePlus::DownUnprocessed;
        let res = self.key_action(key_type, now);
        if down {
            self.key_states[i] = KeyStatePlus::DownProcessed;
        }
        if res.1 {
            self.tetris_variable_container.last_move_execute = Some(now);
            self.tetris_variable_container.move_count_since_lockdown_execute =
                self.tetris_variable_container.move_count_since_lockdown_execute + 1;
        }
        if previous_minimum_y < self.tetris_variable_container.mino.minimum_y {
            self.tetris_variable_container.move_count_since_lockdown_execute = 0;
            self.tetris_variable_container.first_hitting_ground = None;
        }
        res.0
    }
}

impl TetrisManager {
    /// The soft-drop phase of a frame at time `now`.
    fn soft_drop_step(&mut self, now: u64)
        requires
            game_ok(old(self)@),
        ensures
            final(self)@ == soft_drop_phase(old(self)@, now),
            game_ok(final(self)@),
            final(self).random_generator == old(self).random_generator,
            final(self)@.move_count <= old(self)@.move_count,
    {
        if self.tetris_variable_container.is_in_soft_drop {
            let ghost g = self@;
            let previous_minimum_y = self.tetris_variable_container.mino.minimum_y;
            if self.settings.soft_drop_ms == 0 {
                drop_to_floor(&mut self.tetris_variable_container.mino);
                proof {
                    lemma_field_kept(self@.mino.field, g.mino.field);
                }
            } else if self.tetris_variable_container.last_soft_drop_execute.is_none() || is_expired(
                self.tetris_variable_container.last_soft_drop_execute,
                now,
                self.settings.soft_drop_ms,
            ) {
                let _ = self.move_piece(MoveMessage::Down);
            }
            if previous_minimum_y < self.tetris_variable_container.mino.minimum_y {
                self.tetris_variable_container.move_count_since_lockdown_execute = 0;
                self.tetris_variable_container.first_hitting_ground = None;
            }
            self.tetris_variable_container.last_soft_drop_execute = Some(now);
        }
    }

    /// The delayed-auto-shift phase of a frame at time `now`.
    fn das_step(&mut self, now: u64)
        requires
            game_ok(old(self)@),
        ensures
            final(self)@ == das_phase(old(self)@, now),
            game_ok(final(self)@),
            final(self).random_generator == old(self).random_generator,
            final(self)@.start_waiting_das is Some ==> final(self)@.arr_direction_is_right is Some,
    {
        let left = self.tetris_variable_container.start_left_pressing.is_some();
        let right = self.tetris_variable_container.start_right_pressing.is_some();
        if (left && right) || (!left && !right) {
            self.tetris_variable_container.start_waiting_das = None;
            self.tetris_variable_container.arr_direction_is_right = None;
        } else {
            if self.tetris_variable_container.start_waiting_das.is_none() {
                self.tetris_variable_container.start_waiting_das = Some(now);
            }
            self.tetris_variable_container.arr_direction_is_right = Some(right);
        }
    }

    /// The auto-repeat phase of a frame at time `now`.
    fn arr_step(&mut self, now: u64)
        requires
            game_ok(old(self)@),
            old(self)@.start_waiting_das is Some ==> old(self)@.arr_direction_is_right is Some,
            old(self)@.move_count < usize::MAX,
        ensures
            final(self)@ == arr_phase(old(self)@, now),
            game_ok(final(self)@),
            final(self).random_generator == old(self).random_generator,
            final(self)@.move_count <= old(self)@.move_count + 1,
    {
        if self.tetris_variable_container.start_waiting_das.is_some() && is_expired(
            self.tetris_variable_container.start_waiting_das,
            now,
            self.settings.das_ms,
        ) {
            if self.tetris_variable_container.last_arr_execute.is_none() || is_expired(
                self.tetris_variable_container.last_arr_execute,
                now,
                self.settings.arr_ms,
            ) {
                let right = match self.tetris_variable_container.arr_direction_is_right {
                    Some(r) => r,
                    None => false,
                };
                let msg = if right {
                    MoveMessage::Right
                } else {
                    MoveMessage::Left
                };
                if self.move_piece(msg) {
                    self.tetris_variable_container.move_count_since_lockdown_execute =
                        self.tetris_variable_container.move_count_since_lockdown_execute + 1;
                }
                self.tetris_variable_container.last_arr_execute = Some(now);
            }
        }
    }

    /// The gravity phase of a frame at time `now`.
    fn gravity_step(&mut self, now: u64)
        requires
            game_ok(old(self)@),
        ensures
            final(self)@ == gravity_phase(old(self)@, now),
            game_ok(final(self)@),
            final(self).random_generator == old(self).random_generator,
            final(self)@.move_count <= old(self)@.move_count,
    {
        if self.tetris_variable_container.last_down_executed.is_none() || is_expired(
            self.tetris_variable_container.last_down_executed,
            now,
            self.settings.gravity_ms,
        ) {
            let previous_minimum_y = self.tetris_variable_container.mino.minimum_y;
            let _ = self.move_piece(MoveMessage::Down);
            if previous_minimum_y < self.tetris_variable_container.mino.minimum_y {
                self.tetris_variable_container.move_count_since_lockdown_execute = 0;
                self.tetris_variable_container.first_hitting_ground = None;
            }
            self.tetris_variable_container.last_down_executed = Some(now);
        }
    }

    /// The ground-timer phase of a frame at time `now`.
    fn ground_step(&mut self, now: u64)
        requires
            game_ok(old(self)@),
        ensures
            final(self)@ == ground_phase(old(self)@, now),
            game_ok(final(self)@),
            final(self).random_generator == old(self).random_generator,
    {
        if self.tetris_variable_container.mino.is_hitting_ground() {
            if self.tetris_variable_container.first_hitting_ground.is_none() {
                self.tetris_variable_container.first_hitting_ground = Some(now);
            }
        } else {
            self.tetris_variable_container.first_hitting_ground = None;
        }
    }

    /// The phases of a frame at time `now` from soft drop to the ground timer.
    fn judge(&mut self, now: u64)
        requires
            game_ok(old(self)@),
            old(self)@.move_count < usize::MAX,
        ensures
            final(self)@ == judge_phases(old(self)@, now),
            game_ok(final(self)@),
            final(self).random_generator == old(self).random_generator,
            final(self)@.move_count <= old(self)@.move_count + 1,
    {
        reveal(judge_phases);
        self.soft_drop_step(now);
        self.das_step(now);
        self.arr_step(now);
        self.gravity_step(now);
        self.ground_step(now);
    }

    /// Locks the piece and deals the next one.
    fn lock_piece(&mut self) -> (drawn: Option<MinoType>)
        requires
            game_ok(old(self)@),
            old(self).random_generator.min_items > 0,
        ensures
            drawn is Some,
            final(self)@ == (GameView { mino: old(self)@.mino.fixed().0, next: drawn, ..old(self)@ }),
            game_ok(final(self)@),
            gen_step(old(self).random_generator, final(self).random_generator, drawn),
    {
        let ghost g = self@;
        let _ = self.tetris_variable_container.mino.fix();
        proof {
            lemma_field_kept(self@.mino.field, g.mino.field);
        }
        let n = self.random_generator.next();
        self.tetris_variable_container.next = n;
        n
    }

    /// The lock-delay phase of a frame at time `now`; gives the piece dealt, if any.
    fn lock_step(&mut self, now: u64) -> (drawn: Option<MinoType>)
        requires
            game_ok(old(self)@),
            old(self).random_generator.min_items > 0,
        ensures
            drawn is Some == lock_draws(old(self)@, now),
            final(self)@ == lock_phase(old(self)@, now, drawn),
            game_ok(final(self)@),
            gen_step(old(self).random_generator, final(self).random_generator, drawn),
    {
        reveal(lock_phase);
        if self.tetris_variable_container.first_hitting_ground.is_some() && is_expired(
            self.tetris_variable_container.first_hitting_ground,
            now,
            self.settings.lockdown_ms,
        ) {
            if self.tetris_variable_container.last_move_execute.is_none() || is_expired(
                self.tetris_variable_container.last_move_execute,
                now,
                self.settings.lockdown_ms,
            ) {
                return self.lock_piece();
            }
        }
        None
    }

    /// The move-limit phase of a frame; gives the piece dealt, if any.
    fn limit_step(&mut self) -> (drawn: Option<MinoType>)
        requires
            game_ok(old(self)@),
            old(self).random_generator.min_items > 0,
        ensures
            drawn is Some == limit_draws(old(self)@),
            final(self)@ == limit_phase(old(self)@, drawn),
            game_ok(final(self)@),
            gen_step(old(self).random_generator, final(self).random_generator, drawn),
    {
        reveal(limit_phase);
        if self.tetris_variable_container.move_count_since_lockdown_execute >= self.settings.move_count_limit
            && self.tetris_variable_container.first_hitting_ground.is_some() {
            return self.lock_piece();
        }
        None
    }
}

/// What one frame does with the pieces: run on `stream` (the stock followed by
/// the bags added during the frame), the frame gives the game `g2` and deals
/// the first pieces of `stream`, leaving the rest, `stock2`, in stock.
pub open spec fn frame_result(
    g: GameView,
    now: u64,
    stream: Seq<MinoType>,
    g2: GameView,
    stock2: Seq<MinoType>,
) -> bool {
    let (f, n) = frame(g, now, stream);
    &&& f == g2
    &&& 0 <= n <= stream.len()
    &&& stock2 == stream.skip(n)
}

/// Two fields of the standard size have the same dimensions.
proof fn lemma_standard_same(a: Grid, b: Grid)
    requires
        standard_shape(a),
        standard_shape(b),
    ensures
        same_dims(a, b),
{
}

/// One dealing phase leaves the stock with the length that dealing its
/// pieces, each after topping the stock up to `min_items`, gives.
proof fn lemma_gen_step_len(a: RandomGenerator, b: RandomGenerator, d: Option<MinoType>)
    requires
        gen_step(a, b, d),
    ensures
        b.stock@.len() == len_after_deals(a.stock@.len() as int, a.min_items as int, opt_seq(d).len()),
{
    let l0 = a.stock@.len() as int;
    let m = a.min_items as int;
    match d {
        None => {
            assert(opt_seq(d).len() == 0);
        },
        Some(x) => {
            let after = seq![x] + b.stock@;
            assert(is_bags(after.skip(l0)));
            assert(after.skip(l0).len() == after.len() - l0);
            lemma_topped_len(l0, m, after.len() as int);
            assert(opt_seq(d).len() == 1);
            assert(len_after_deals(l0, m, 1) == len_after_deals(topped_len(l0, m) - 1, m, 0));
        },
    }
}

/// Bookkeeping of the pieces dealt in a frame: if the stock at the start,
/// followed by the bags added so far, is what was dealt so far followed by the
/// current stock, then after one more phase that is still so with the bags
/// that phase added, and bags are added only when the stock runs short.
proof fn lemma_stream_step(
    s0: Seq<MinoType>,
    fresh: Seq<MinoType>,
    dealt_so_far: Seq<MinoType>,
    a: RandomGenerator,
    b: RandomGenerator,
    d: Option<MinoType>,
) -> (fresh2: Seq<MinoType>)
    requires
        is_bags(fresh),
        s0 + fresh == dealt_so_far + a.stock@,
        gen_step(a, b, d),
    ensures
        is_bags(fresh2),
        s0 + fresh2 == dealt_so_far + opt_seq(d) + b.stock@,
{
    match d {
        None => {
            assert(dealt_so_far + opt_seq(d) =~= dealt_so_far);
            fresh
        },
        Some(x) => {
            let cur = a.stock@;
            let after = seq![x] + b.stock@;
            let bags = after.skip(cur.len() as int);
            assert(cur + bags =~= after);
            lemma_bags_concat(fresh, bags);
            assert(s0 + (fresh + bags) =~= (s0 + fresh) + bags);
            assert((dealt_so_far + cur) + bags =~= dealt_so_far + (cur + bags));
            assert(dealt_so_far + after =~= dealt_so_far + opt_seq(d) + b.stock@);
            assert(s0 + (fresh + bags) =~= dealt_so_far + opt_seq(d) + b.stock@);
            fresh + bags
        },
    }
}

impl TetrisManager {
    /// Redraws the ghost when the field differs from `start`.
    fn ghost_step(&mut self, start: &Vec<Vec<BlockType>>)
        requires
            game_ok(old(self)@),
        ensures
            final(self)@ == ghost_phase(old(self)@, grid(start)),
            game_ok(final(self)@),
            final(self).random_generator == old(self).random_generator,
    {
        reveal(ghost_phase);
        if !same_grid(&self.tetris_variable_container.mino.field, start) {
            let ghost g = self@;
            self.tetris_variable_container.mino.draw_ghost();
            proof {
                let m = g.mino;
                let lg = crate::mino::landing_y(m.field, m.mino_type, m.direction, m.x, m.y);
                lemma_stamped_dims(
                    crate::field::without_ghosts(m.field),
                    m.mino_type,
                    m.direction,
                    m.x,
                    lg,
                    BlockType::GhostBlock(m.mino_type),
                    true,
                );
                lemma_stamped_dims(m.field, m.mino_type, m.direction, m.x, lg, BlockType::Empty, true);
                lemma_field_kept(self@.mino.field, m.field);
                lemma_standard_same(self@.mino.field, m.field);
                lemma_within_same_dims(m.field, self@.mino.field, m.mino_type, m.direction, m.x, m.y);
                lemma_standard_same_dims(self@.mino.field, m.field);
            }
        }
    }

    /// The spawn phase of a frame: the next piece, if any, enters.
    fn spawn_step(&mut self, held_now: bool)
        requires
            game_ok(old(self)@),
        ensures
            final(self)@ == spawn_phase(old(self)@, held_now),
            game_ok(final(self)@),
            final(self).random_generator == old(self).random_generator,
    {
        reveal(spawn_phase);
        match self.tetris_variable_container.next {
            Some(next) => {
                let ghost g = self@.mino.field;
                let mino_result = Mino::new(next, &self.tetris_variable_container.mino.field);
                self.tetris_variable_container.next = None;
                self.tetris_variable_container.is_hold_executed = if held_now {
                    true
                } else {
                    false
                };
                self.tetris_variable_container.last_down_executed = None;
                self.tetris_variable_container.last_move_execute = None;
                self.tetris_variable_container.move_count_since_lockdown_execute = 0;
                self.tetris_variable_container.first_hitting_ground = None;
                match mino_result {
                    Ok(m) => {
                        self.tetris_variable_container.mino = m;
                        proof {
                            let p = placed(
                                g,
                                next,
                                MinoDirection::North,
                                APPEARANCE_X as int,
                                APPEARANCE_Y as int,
                                crate::block::MinoState::InMotion,
                            );
                            lemma_moved_to_sane(
                                crate::mino::default_mino_in(g, next),
                                APPEARANCE_X as int,
                                APPEARANCE_Y as int,
                                MinoDirection::North,
                            );
                            lemma_field_kept(p, g);
                            lemma_cleared_shape(p);
                        }
                        clear_lines(&mut self.tetris_variable_container.mino.field);
                        proof {
                            let p = self@.mino.field;
                            let q = spawned(g, next).field;
                            lemma_standard_same(p, q);
                            lemma_within_same_dims(
                                q,
                                p,
                                next,
                                MinoDirection::North,
                                APPEARANCE_X as int,
                                APPEARANCE_Y as int,
                            );
                            lemma_standard_same_dims(p, q);
                        }
                    },
                    Err(_) => {
                        self.is_finished = true;
                    },
                }
            },
            None => {},
        }
    }
}

impl TetrisManager {
    /// Handles the keys for a frame at time `now`, in the order of `key_order`;
    /// gives the pieces that the hard drop and the hold dealt, if any, and
    /// whether the hold swapped the piece.
    fn handle_keys(&mut self, now: u64) -> (res: (Option<MinoType>, Option<MinoType>, bool))
        requires
            game_ok(old(self)@),
            old(self).random_generator.min_items > 0,
            old(self)@.move_count <= usize::MAX - 16,
        ensures
            final(self)@ == keys_part(old(self)@, now, res.0, res.1),
            res.0 is Some == key_draws(early_keys(old(self)@, now), KeyType::HardDrop),
            res.1 is Some == key_draws(before_hold(old(self)@, now, res.0), KeyType::Hold),
            res.2 == holds_now(before_hold(old(self)@, now, res.0)),
            game_ok(final(self)@),
            final(self)@.move_count <= old(self)@.move_count + 8,
            exists|mid: RandomGenerator|
                gen_step(old(self).random_generator, mid, res.0) && gen_step(
                    mid,
                    final(self).random_generator,
                    res.1,
                ),
    {
        self.process_key(KeyType::Left, now);
        self.process_key(KeyType::Right, now);
        self.process_key(KeyType::RotateRight, now);
        self.process_key(KeyType::RotateLeft, now);
        self.process_key(KeyType::Rotate180, now);
        let dh = self.process_key(KeyType::HardDrop, now);
        self.process_key(KeyType::SoftDrop, now);
        let held = self.key_states[7] == KeyStatePlus::DownUnprocessed
            && !self.tetris_variable_container.is_hold_executed;
        let dd = self.process_key(KeyType::Hold, now);
        (dh, dd, held)
    }

    /// The timed phases and the lock checks of a frame at time `now`; gives
    /// the pieces that the lock delay and the move limit dealt, if any.
    fn handle_locks(&mut self, now: u64) -> (res: (Option<MinoType>, Option<MinoType>))
        requires
            game_ok(old(self)@),
            old(self).random_generator.min_items > 0,
            old(self)@.move_count < usize::MAX,
        ensures
            final(self)@ == locks_part(old(self)@, now, res.0, res.1),
            res.0 is Some == lock_draws(judge_phases(old(self)@, now), now),
            res.1 is Some == limit_draws(lock_phase(judge_phases(old(self)@, now), now, res.0)),
            game_ok(final(self)@),
            exists|mid: RandomGenerator|
                gen_step(old(self).random_generator, mid, res.0) && gen_step(
                    mid,
                    final(self).random_generator,
                    res.1,
                ),
    {
        self.judge(now);
        let dl = self.lock_step(now);
        let dm = self.limit_step();
        (dl, dm)
    }

    /// One frame of the game at time `now` (milliseconds): the keys are
    /// handled in the order of `key_order`, then soft drop, delayed auto shift,
    /// auto repeat, gravity, the ground timer, the lock delay and the move
    /// limit, the ghost is redrawn if the field changed, and the next piece, if
    /// any, enters with full lines cleared. A finished game is left as it is.
    ///
    /// The pieces dealt are the first pieces of the stock followed by whole
    /// bags that the frame added: each deal first tops the stock up to
    /// `min_items` pieces with as few bags as needed, so a frame that deals no
    /// piece adds none, and the final stock has `len_after_deals` pieces.
    pub fn update(&mut self, now: u64)
        requires
            game_ok(old(self)@),
            old(self).random_generator.min_items > 0,
            old(self)@.move_count <= usize::MAX - 16,
        ensures
            game_ok(final(self)@),
            final(self).random_generator.min_items == old(self).random_generator.min_items,
            bag_aligned(old(self).random_generator.stock@) ==> bag_aligned(
                final(self).random_generator.stock@,
            ),
            exists|fresh: Seq<MinoType>|
                #[trigger] is_bags(fresh) && frame_result(
                    old(self)@,
                    now,
                    old(self).random_generator.stock@ + fresh,
                    final(self)@,
                    final(self).random_generator.stock@,
                ) && final(self).random_generator.stock@.len() == len_after_deals(
                    old(self).random_generator.stock@.len() as int,
                    old(self).random_generator.min_items as int,
                    frame(old(self)@, now, old(self).random_generator.stock@ + fresh).1 as nat,
                ),
    {
        let ghost g0 = self@;
        let ghost r0 = self.random_generator;
        if self.is_finished {
            proof {
                let e = Seq::<MinoType>::empty();
                assert(r0.stock@ + e =~= r0.stock@);
                assert(r0.stock@.skip(0) =~= r0.stock@);
                assert(is_bags(e));
                assert(frame_result(g0, now, r0.stock@ + e, self@, self.random_generator.stock@));
            }
            return;
        }
        let previous_field = copy_grid(&self.tetris_variable_container.mino.field);
        let keys = self.handle_keys(now);
        let ghost r8 = self.random_generator;
        let locks = self.handle_locks(now);
        let ghost r11 = self.random_generator;
        self.ghost_step(&previous_field);
        self.spawn_step(keys.2);
        proof {
            lemma_frame_stream(g0, now, r0, r8, r11, keys.0, keys.1, locks.0, locks.1);
        }
    }
}

/// The bags added over a frame's four dealing phases: the stock at the start
/// followed by them is the pieces dealt followed by the stock at the end.
proof fn lemma_four_deals(
    r0: RandomGenerator,
    r8: RandomGenerator,
    r11: RandomGenerator,
    dh: Option<MinoType>,
    dd: Option<MinoType>,
    dl: Option<MinoType>,
    dm: Option<MinoType>,
) -> (fresh: Seq<MinoType>)
    requires
        exists|mid: RandomGenerator| gen_step(r0, mid, dh) && gen_step(mid, r8, dd),
        exists|mid: RandomGenerator| gen_step(r8, mid, dl) && gen_step(mid, r11, dm),
    ensures
        is_bags(fresh),
        r0.stock@ + fresh == opt_seq(dh) + opt_seq(dd) + opt_seq(dl) + opt_seq(dm) + r11.stock@,
        r11.stock@.len() == len_after_deals(
            r0.stock@.len() as int,
            r0.min_items as int,
            (opt_seq(dh) + opt_seq(dd) + opt_seq(dl) + opt_seq(dm)).len(),
        ),
{
    let ma = choose|mid: RandomGenerator| gen_step(r0, mid, dh) && gen_step(mid, r8, dd);
    let mb = choose|mid: RandomGenerator| gen_step(r8, mid, dl) && gen_step(mid, r11, dm);
    let s0 = r0.stock@;
    let e = Seq::<MinoType>::empty();
    assert(s0 + e =~= e + s0);
    assert(is_bags(e));
    let f1 = lemma_stream_step(s0, e, e, r0, ma, dh);
    let d1 = e + opt_seq(dh);
    assert(d1 =~= opt_seq(dh));
    let f2 = lemma_stream_step(s0, f1, d1, ma, r8, dd);
    let d2 = d1 + opt_seq(dd);
    let f3 = lemma_stream_step(s0, f2, d2, r8, mb, dl);
    let d3 = d2 + opt_seq(dl);
    let f4 = lemma_stream_step(s0, f3, d3, mb, r11, dm);
    let m = r0.min_items as int;
    let (n1, n2, n3, n4) = (opt_seq(dh).len(), opt_seq(dd).len(), opt_seq(dl).len(), opt_seq(dm).len());
    lemma_gen_step_len(r0, ma, dh);
    lemma_gen_step_len(ma, r8, dd);
    lemma_gen_step_len(r8, mb, dl);
    lemma_gen_step_len(mb, r11, dm);
    let l0 = r0.stock@.len() as int;
    lemma_len_after_deals_add(l0, m, n1, n2);
    lemma_len_after_deals_add(l0, m, n1 + n2, n3);
    lemma_len_after_deals_add(l0, m, n1 + n2 + n3, n4);
    f4
}

/// The pieces dealt in a frame are the first pieces of the stock followed by
/// the bags that the frame added.
proof fn lemma_frame_stream(
    g0: GameView,
    now: u64,
    r0: RandomGenerator,
    r8: RandomGenerator,
    r11: RandomGenerator,
    dh: Option<MinoType>,
    dd: Option<MinoType>,
    dl: Option<MinoType>,
    dm: Option<MinoType>,
)
    requires
        !g0.is_finished,
        exists|mid: RandomGenerator| gen_step(r0, mid, dh) && gen_step(mid, r8, dd),
        exists|mid: RandomGenerator| gen_step(r8, mid, dl) && gen_step(mid, r11, dm),
        dh is Some == key_draws(early_keys(g0, now), KeyType::HardDrop),
        dd is Some == key_draws(before_hold(g0, now, dh), KeyType::Hold),
        dl is Some == lock_draws(judge_phases(keys_part(g0, now, dh, dd), now), now),
        dm is Some == limit_draws(lock_phase(judge_phases(keys_part(g0, now, dh, dd), now), now, dl)),
    ensures
        exists|fresh: Seq<MinoType>|
            #[trigger] is_bags(fresh) && frame_result(
                g0,
                now,
                r0.stock@ + fresh,
                spawn_phase(
                    ghost_phase(locks_part(keys_part(g0, now, dh, dd), now, dl, dm), g0.mino.field),
                    holds_now(before_hold(g0, now, dh)),
                ),
                r11.stock@,
            ) && r11.stock@.len() == len_after_deals(
                r0.stock@.len() as int,
                r0.min_items as int,
                frame(g0, now, r0.stock@ + fresh).1 as nat,
            ),
{
    let fresh = lemma_four_deals(r0, r8, r11, dh, dd, dl, dm);
    lemma_frame_deals(g0, now, r0.stock@ + fresh, r11.stock@, dh, dd, dl, dm);
}

/// A frame run on the pieces dealt followed by the final stock deals exactly
/// those pieces, in the order the phases deal them.
proof fn lemma_frame_deals(
    g0: GameView,
    now: u64,
    stream: Seq<MinoType>,
    rest: Seq<MinoType>,
    dh: Option<MinoType>,
    dd: Option<MinoType>,
    dl: Option<MinoType>,
    dm: Option<MinoType>,
)
    requires
        !g0.is_finished,
        stream == opt_seq(dh) + opt_seq(dd) + opt_seq(dl) + opt_seq(dm) + rest,
        dh is Some == key_draws(early_keys(g0, now), KeyType::HardDrop),
        dd is Some == key_draws(before_hold(g0, now, dh), KeyType::Hold),
        dl is Some == lock_draws(judge_phases(keys_part(g0, now, dh, dd), now), now),
        dm is Some == limit_draws(lock_phase(judge_phases(keys_part(g0, now, dh, dd), now), now, dl)),
    ensures
        frame_result(
            g0,
            now,
            stream,
            spawn_phase(
                ghost_phase(locks_part(keys_part(g0, now, dh, dd), now, dl, dm), g0.mino.field),
                holds_now(before_hold(g0, now, dh)),
            ),
            rest,
        ),
        frame(g0, now, stream).1 == (opt_seq(dh) + opt_seq(dd) + opt_seq(dl) + opt_seq(dm)).len(),
{
    let d4 = opt_seq(dh) + opt_seq(dd) + opt_seq(dl) + opt_seq(dm);
    assert(stream.skip(d4.len() as int) =~= rest);
    let k1 = opt_seq(dh).len() as int;
    let k2 = k1 + opt_seq(dd).len();
    let k3 = k2 + opt_seq(dl).len();
    assert(deal(key_draws(early_keys(g0, now), KeyType::HardDrop), stream, 0) == dh) by {
        if dh is Some {
            assert(stream[0] == opt_seq(dh)[0]);
        }
    }
    assert(deal(key_draws(before_hold(g0, now, dh), KeyType::Hold), stream, k1) == dd) by {
        if dd is Some {
            assert(stream[k1] == opt_seq(dd)[0]);
        }
    }
    let g9 = judge_phases(keys_part(g0, now, dh, dd), now);
    assert(deal(lock_draws(g9, now), stream, k2) == dl) by {
        if dl is Some {
            assert(stream[k2] == opt_seq(dl)[0]);
        }
    }
    assert(deal(limit_draws(lock_phase(g9, now, dl)), stream, k3) == dm) by {
        if dm is Some {
            assert(stream[k3] == opt_seq(dm)[0]);
        }
    }
}

/// The game at the start: the default settings, every key released, nothing
/// held or next, no timer set, and a piece of kind `t` entered into an empty field of the standard size.
pub open spec fn initial_game(t: MinoType) -> GameView {
    GameView {
        is_finished: false,
        settings: default_settings(),
        keys: Seq::new(8, |i: int| KeyStatePlus::Up),
        mino: spawned(empty_grid(HEIGHT as int, WIDTH as int), t),
        hold: None,
        next: None,
        is_hold_executed: false,
        last_down_executed: None,
        start_left_pressing: None,
        start_right_pressing: None,
        start_waiting_das: None,
        arr_direction_is_right: None,
        last_arr_execute: None,
        is_in_soft_drop: false,
        last_soft_drop_execute: None,
        last_move_execute: None,
        move_count: 0,
        first_hitting_ground: None,
    }
}

/// Every piece fits at the appearance place in an empty field of the standard size.
pub proof fn lemma_fits_empty(t: MinoType)
    ensures
        fits(
            empty_grid(HEIGHT as int, WIDTH as int),
            t,
            MinoDirection::North,
            APPEARANCE_X as int,
            APPEARANCE_Y as int,
        ),
{
}

impl Default for TetrisManager {
    /// A new game: every key released and the first piece dealt into an empty field.
    fn default() -> (m: Self)
        ensures
            m@ == initial_game(m@.mino.mino_type),
            game_ok(m@),
            m.random_generator.min_items == 20,
            is_bags(seq![m@.mino.mino_type] + m.random_generator.stock@),
            m.random_generator.stock@.len() == 20,
            bag_aligned(m.random_generator.stock@),
    {
        let mut key_states: Vec<KeyStatePlus> = Vec::new();
        for i in 0..8usize
            invariant
                key_states@ == Seq::new(i as nat, |j: int| KeyStatePlus::Up),
        {
            key_states.push(KeyStatePlus::Up);
            assert(key_states@ =~= Seq::new((i + 1) as nat, |j: int| KeyStatePlus::Up));
        }
        let field = BlockType::create_empty_field(WIDTH, HEIGHT);
        let mut random_generator = RandomGenerator::default();
        proof {
            assert(bag_aligned(random_generator.stock@)) by {
                assert(random_generator.stock@.take(0) =~= Seq::<MinoType>::empty());
                assert(random_generator.stock@.skip(0) =~= Seq::<MinoType>::empty());
            }
        }
        let first = random_generator.next();
        let t = first.unwrap();
        proof {
            lemma_fits_empty(t);
            let g = empty_grid(HEIGHT as int, WIDTH as int);
            lemma_empty_shape();
            lemma_moved_to_sane(
                crate::mino::default_mino_in(g, t),
                APPEARANCE_X as int,
                APPEARANCE_Y as int,
                MinoDirection::North,
            );
            lemma_field_kept(spawned(g, t).field, g);
            assert((seq![t] + random_generator.stock@).skip(0) =~= seq![t] + random_generator.stock@);
        }
        let mino = Mino::new(t, &field).unwrap();
        let tetris_variable_container = TetrisVariableContainer {
            mino,
            hold: None,
            next: None,
            is_hold_executed: false,
            last_down_executed: None,
            start_left_pressing: None,
            start_right_pressing: None,
            start_waiting_das: None,
            arr_direction_is_right: None,
            last_arr_execute: None,
            is_in_soft_drop: false,
            last_soft_drop_execute: None,
            last_move_execute: None,
            move_count_since_lockdown_execute: 0,
            first_hitting_ground: None,
        };
        TetrisManager {
            key_states,
            is_finished: false,
            settings: Settings::default(),
            random_generator,
            tetris_variable_container,
        }
    }
}

impl TetrisManager {
    /// Whether the game is over.
    pub fn get_is_finished(&self) -> (r: bool)
        ensures
            r == self.is_finished,
    {
        self.is_finished
    }

    /// Records a key going down (to be handled by the next frame) or up.
    pub fn send_key(&mut self, key_type: KeyType, is_down: bool)
        requires
            old(self).key_states@.len() == 8,
        ensures
            final(self)@ == (GameView {
                keys: old(self)@.keys.update(
                    key_index(key_type),
                    if is_down {
                        KeyStatePlus::DownUnprocessed
                    } else {
                        KeyStatePlus::Up
                    },
                ),
                ..old(self)@
            }),
            final(self).random_generator == old(self).random_generator,
    {
        let i = key_slot(key_type);
        self.key_states[i] = if is_down {
            KeyStatePlus::DownUnprocessed
        } else {
            KeyStatePlus::Up
        };
    }

    /// What to draw: a copy of the field, the next `preview_size` pieces (the
    /// stock topped up as `RandomGenerator::get_items` does), and the held piece.
    pub fn get_data_to_draw(&mut self, preview_size: usize) -> (r: (
        Vec<Vec<BlockType>>,
        Vec<MinoType>,
        Option<MinoType>,
    ))
        ensures
            final(self)@ == old(self)@,
            grid(&r.0) == old(self)@.mino.field,
            r.2 == old(self)@.hold,
            final(self).random_generator.min_items == old(self).random_generator.min_items,
            extends_by_bags(old(self).random_generator.stock@, final(self).random_generator.stock@),
            final(self).random_generator.stock@.len() >= preview_size,
            old(self).random_generator.stock@.len() >= preview_size
                ==> final(self).random_generator.stock@ == old(self).random_generator.stock@,
            old(self).random_generator.stock@.len() < preview_size
                ==> final(self).random_generator.stock@.len() < preview_size + 7,
            bag_aligned(old(self).random_generator.stock@) ==> bag_aligned(
                final(self).random_generator.stock@,
            ),
            r.1@ == final(self).random_generator.stock@.take(preview_size as int),
    {
        let field = copy_grid(&self.tetris_variable_container.mino.field);
        let items = self.random_generator.get_items(preview_size);
        let hold = if let Some(hold) = self.tetris_variable_container.hold {
            Some(hold)
        } else {
            None
        };
        (field, items, hold)
    }
}

} // verus!
