//! Driving a sprite sheet frame by frame.
//!
//! A sheet is a grid: each row is one animation, each column one of its
//! frames. The sheet may have fewer rows than there are animations.

use vstd::prelude::*;

verus! {

/// Width of one frame, in pixels.
pub const FRAME_W: u32 = 192;

/// Height of one frame, in pixels.
pub const FRAME_H: u32 = 208;

/// Frames of one round of an animation.
pub const FRAMES_PER_STATE: i32 = 6;

/// Time for one round, in milliseconds.
pub const LOOP_MS: u64 = 1100;

/// Time for one frame, in milliseconds.
pub const FRAME_MS: u64 = LOOP_MS / FRAMES_PER_STATE as u64;

/// The animations, in the order of the rows of a sheet.
#[derive(Debug, Clone, Copy, PartialEq, Eq, Structural)]
pub enum PetState {
    Idle,
    Wave,
    Run,
    Failed,
    Review,
    Jump,
}

/// The row an animation has on a sheet that is tall enough for it.
pub open spec fn sheet_row(state: PetState) -> int {
    match state {
        PetState::Idle => 0,
        PetState::Wave => 1,
        PetState::Run => 2,
        PetState::Failed => 3,
        PetState::Review => 4,
        PetState::Jump => 5,
    }
}

/// The row to show for `state` on a sheet of `rows` rows: its own if the sheet
/// has it, else the first.
pub open spec fn row_shown(state: PetState, rows: int) -> int {
    if sheet_row(state) < rows {
        sheet_row(state)
    } else {
        0
    }
}

/// The row to show for `state` on a sheet of `rows` rows.
pub fn row_of(state: PetState, rows: i32) -> (r: i32)
    ensures
        r == row_shown(state, rows as int),
{
    let want: i32 = match state {
        PetState::Idle => 0,
        PetState::Wave => 1,
        PetState::Run => 2,
        PetState::Failed => 3,
        PetState::Review => 4,
        PetState::Jump => 5,
    };
    if want < rows {
        want
    } else {
        0
    }
}

/// The animations played to pass the time, the most amusing first.
pub open spec fn specials() -> Seq<PetState> {
    seq![PetState::Jump, PetState::Run, PetState::Review, PetState::Failed]
}

/// Those of them that a sheet of `rows` rows has.
pub open spec fn available_specials(rows: int) -> Seq<PetState> {
    specials().filter(|s: PetState| sheet_row(s) < rows)
}

/// The one that a random number picks, if there is one.
pub open spec fn special_picked(rows: int, rand: nat) -> Option<PetState> {
    let avail = available_specials(rows);
    if avail.len() == 0 {
        None
    } else {
        Some(avail[rand as int % avail.len() as int])
    }
}

/// Picks, by a random number, one of the animations to pass the time that a
/// sheet of `rows` rows has; `None` when it has none of them.
pub fn pick_special(rows: i32, rand: u32) -> (r: Option<PetState>)
    ensures
        r == special_picked(rows as int, rand as nat),
{
    let mut avail: Vec<PetState> = Vec::new();
    if 5 < rows {
        avail.push(PetState::Jump);
    }
    if 2 < rows {
        avail.push(PetState::Run);
    }
    if 4 < rows {
        avail.push(PetState::Review);
    }
    if 3 < rows {
        avail.push(PetState::Failed);
    }
    proof {
        let all = specials();
        reveal_with_fuel(Seq::<_>::filter, 5);
        assert(all.drop_last() =~= seq![PetState::Jump, PetState::Run, PetState::Review]);
        assert(all.drop_last().drop_last() =~= seq![PetState::Jump, PetState::Run]);
        assert(all.drop_last().drop_last().drop_last() =~= seq![PetState::Jump]);
        assert(all.drop_last().drop_last().drop_last().drop_last() =~= Seq::<PetState>::empty());
        assert(avail@ =~= available_specials(rows as int));
    }
    if avail.len() == 0 {
        None
    } else {
        Some(avail[rand as usize % avail.len()])
    }
}

/// The larger of two integers.
pub open spec fn max_of(a: int, b: int) -> int {
    if a >= b {
        a
    } else {
        b
    }
}

/// The grid of a sheet, `(rows, columns)`, by the size of its image: as many
/// whole frames as fit, and at least one each way.
pub fn grid_from_image(w: u32, h: u32) -> (r: (i32, i32))
    ensures
        r.0 == max_of(h as int / FRAME_H as int, 1),
        r.1 == max_of(w as int / FRAME_W as int, 1),
{
    let rows: u32 = h / FRAME_H;
    let cols: u32 = w / FRAME_W;
    (
        if rows >= 1 {
            rows as i32
        } else {
            1
        },
        if cols >= 1 {
            cols as i32
        } else {
            1
        },
    )
}

/// What an `Animator` is in the middle of.
pub struct AnimatorView {
    /// Rows of the sheet.
    pub rows: int,
    /// Frames of a round.
    pub frames: int,
    /// The animation that plays.
    pub state: PetState,
    /// Whether it gives way to `Idle` after one round.
    pub once: bool,
    /// The frame to show next.
    pub frame: int,
}

impl AnimatorView {
    /// Frames in one round, which is never empty.
    pub open spec fn round(self) -> int {
        max_of(self.frames, 1)
    }

    /// The next frame is one of the round, and `Idle` is never left for `Idle`.
    pub open spec fn valid(self) -> bool {
        &&& 0 <= self.frame < self.round()
        &&& self.frames <= FRAMES_PER_STATE
        &&& self.once ==> self.state != PetState::Idle
    }

    /// With the animation `state` started from its first frame.
    pub open spec fn playing(self, state: PetState, once: bool) -> AnimatorView {
        AnimatorView { state, once: once && state != PetState::Idle, frame: 0, ..self }
    }

    /// The cell of the sheet to show now, `(row, column)`.
    pub open spec fn cell(self) -> (int, int) {
        (row_shown(self.state, self.rows), self.frame)
    }

    /// One frame later.
    pub open spec fn stepped(self) -> AnimatorView {
        if self.frame + 1 < self.frames {
            AnimatorView { frame: self.frame + 1, ..self }
        } else if self.once {
            AnimatorView { frame: 0, state: PetState::Idle, once: false, ..self }
        } else {
            AnimatorView { frame: 0, ..self }
        }
    }

    /// `n` frames later.
    pub open spec fn after(self, n: nat) -> AnimatorView
        decreases n,
    {
        if n == 0 {
            self
        } else {
            self.after((n - 1) as nat).stepped()
        }
    }
}

/// Which frame of which animation a sheet shows.
pub struct Animator {
    rows: i32,
    frames: i32,
    state: PetState,
    once: bool,
    frame: i32,
}

impl View for Animator {
    type V = AnimatorView;

    closed spec fn view(&self) -> AnimatorView {
        AnimatorView {
            rows: self.rows as int,
            frames: self.frames as int,
            state: self.state,
            once: self.once,
            frame: self.frame as int,
        }
    }
}

impl Animator {
    #[verifier::type_invariant]
    closed spec fn well_formed(self) -> bool {
        self@.valid()
    }

    /// An animator for a sheet of that grid, idling.
    pub fn new(rows: i32, cols: i32) -> (r: Self)
        ensures
            r@ == (AnimatorView {
                rows: rows as int,
                frames: if cols < FRAMES_PER_STATE {
                    cols as int
                } else {
                    FRAMES_PER_STATE as int
                },
                state: PetState::Idle,
                once: false,
                frame: 0,
            }),
            r@.valid(),
    {
        Animator {
            rows,
            frames: if cols < FRAMES_PER_STATE {
                cols
            } else {
                FRAMES_PER_STATE
            },
            state: PetState::Idle,
            once: false,
            frame: 0,
        }
    }

    /// Starts `state` from its first frame. With `once` it gives way to `Idle`
    /// after one round, else it goes on round after round.
    pub fn play(&mut self, state: PetState, once: bool)
        ensures
            final(self)@ == old(self)@.playing(state, once),
            final(self)@.valid(),
    {
        proof {
            use_type_invariant(&*self);
        }
        let once = once && state != PetState::Idle;
        *self = Animator { rows: self.rows, frames: self.frames, state, once, frame: 0 };
    }

    /// Whether it idles.
    pub fn is_idle(&self) -> (r: bool)
        ensures
            r == (self@.state == PetState::Idle),
    {
        self.state == PetState::Idle
    }

    /// Rows of the sheet.
    pub fn rows(&self) -> (r: i32)
        ensures
            r == self@.rows,
    {
        self.rows
    }

    /// Takes one step, once every `FRAME_MS`: the cell to show, `(row, column)`.
    pub fn step(&mut self) -> (r: (i32, i32))
        ensures
            (r.0 as int, r.1 as int) == old(self)@.cell(),
            final(self)@ == old(self)@.stepped(),
            old(self)@.valid(),
            final(self)@.valid(),
    {
        proof {
            use_type_invariant(&*self);
        }
        let result = (row_of(self.state, self.rows), self.frame);
        let frame: i32 = self.frame + 1;
        if frame < self.frames {
            self.frame = frame;
        } else if self.once {
            *self =
            Animator {
                rows: self.rows,
                frames: self.frames,
                state: PetState::Idle,
                once: false,
                frame: 0,
            };
        } else {
            self.frame = 0;
        }
        result
    }
}

/// An animation played once shows the frames of one round in order, all on its
/// own row, and then idles from the first frame on.
pub proof fn played_once_returns_to_idle(a: AnimatorView, state: PetState, k: nat)
    requires
        a.valid(),
        state != PetState::Idle,
        k <= a.round(),
    ensures
        k < a.round() ==> a.playing(state, true).after(k).cell() == (row_shown(state, a.rows), k as int),
        k < a.round() ==> a.playing(state, true).after(k).state == state,
        k == a.round() ==> a.playing(state, true).after(k) == a.playing(PetState::Idle, false),
    decreases k,
{
    if k > 0 {
        played_once_returns_to_idle(a, state, (k - 1) as nat);
        lemma_once_mid_round(a, state, (k - 1) as nat);
    }
}

proof fn lemma_once_mid_round(a: AnimatorView, state: PetState, k: nat)
    requires
        a.valid(),
        state != PetState::Idle,
        k < a.round(),
    ensures
        a.playing(state, true).after(k) == (AnimatorView {
            frame: k as int,
            ..a.playing(state, true)
        }),
    decreases k,
{
    if k > 0 {
        lemma_once_mid_round(a, state, (k - 1) as nat);
    }
}

/// An animation that is not played once goes on for ever: after any number of
/// frames it still plays, at the frame that the count leaves over.
pub proof fn looping_never_ends(a: AnimatorView, state: PetState, k: nat)
    requires
        a.valid(),
    ensures
        a.playing(state, false).after(k) == (AnimatorView {
            frame: k as int % a.round(),
            ..a.playing(state, false)
        }),
    decreases k,
{
    let r = a.round();
    if k == 0 {
        vstd::arithmetic::div_mod::lemma_small_mod(0, r as nat);
    } else {
        looping_never_ends(a, state, (k - 1) as nat);
        let p = k - 1;
        assert((p + 1) % r == (if p % r + 1 < r {
            p % r + 1
        } else {
            0
        })) by (nonlinear_arith)
            requires
                r >= 1,
                p >= 0,
        ;
    }
}

/// Whatever is played, the cell shown is on the sheet.
pub proof fn cell_is_on_the_sheet(a: AnimatorView)
    requires
        a.valid(),
        a.rows >= 1,
    ensures
        0 <= a.cell().0 < a.rows,
        0 <= a.cell().1 < a.round(),
{
}

/// An animation to pass the time is found exactly when the sheet has more rows
/// than idling and waving take, it is neither of those two, and the sheet has
/// its row.
pub proof fn specials_are_on_the_sheet(rows: int, i: int)
    requires
        0 <= i < available_specials(rows).len(),
    ensures
        rows > 2,
        sheet_row(available_specials(rows)[i]) >= 2,
        row_shown(available_specials(rows)[i], rows) == sheet_row(available_specials(rows)[i]),
{
    let fits = |s: PetState| sheet_row(s) < rows;
    specials().lemma_filter_pred(fits, i);
    specials().lemma_filter_contains_rev(fits, available_specials(rows)[i]);
}

/// A sheet with room for idling and waving alone has none of them.
pub proof fn short_sheets_have_no_specials(rows: int)
    ensures
        available_specials(rows).len() == 0 <==> rows <= 2,
{
    let fits = |s: PetState| sheet_row(s) < rows;
    if rows > 2 {
        specials().lemma_filter_contains(fits, 1);
    } else if available_specials(rows).len() > 0 {
        specials_are_on_the_sheet(rows, 0);
    }
}

/// The animations have the rows of a sheet in this order, and one whose row the
/// sheet lacks is shown as idling.
pub proof fn rows_come_in_order(rows: int)
    ensures
        row_shown(PetState::Idle, rows) == 0,
        rows > 1 ==> row_shown(PetState::Wave, rows) == 1,
        rows > 2 ==> row_shown(PetState::Run, rows) == 2,
        rows > 3 ==> row_shown(PetState::Failed, rows) == 3,
        rows > 4 ==> row_shown(PetState::Review, rows) == 4,
        rows > 5 ==> row_shown(PetState::Jump, rows) == 5,
        rows <= 1 ==> row_shown(PetState::Wave, rows) == 0,
        rows <= 2 ==> row_shown(PetState::Run, rows) == 0,
        rows <= 3 ==> row_shown(PetState::Failed, rows) == 0,
        rows <= 4 ==> row_shown(PetState::Review, rows) == 0,
        rows <= 5 ==> row_shown(PetState::Jump, rows) == 0,
{
}

/// Chance picks each of the animations that the sheet has in turn: the jump
/// first, then the run, the review and the failure.
pub proof fn chance_picks_in_turn(rows: int, rand: nat)
    ensures
        rows <= 2 ==> special_picked(rows, rand) is None,
        rows == 3 ==> special_picked(rows, rand) == Some(PetState::Run),
        rows == 4 ==> special_picked(rows, rand) == Some(
            if rand % 2 == 0 {
                PetState::Run
            } else {
                PetState::Failed
            },
        ),
        rows == 5 ==> special_picked(rows, rand) == Some(
            if rand % 3 == 0 {
                PetState::Run
            } else if rand % 3 == 1 {
                PetState::Review
            } else {
                PetState::Failed
            },
        ),
        rows >= 6 ==> special_picked(rows, rand) == Some(
            if rand % 4 == 0 {
                PetState::Jump
            } else if rand % 4 == 1 {
                PetState::Run
            } else if rand % 4 == 2 {
                PetState::Review
            } else {
                PetState::Failed
            },
        ),
{
    let all = specials();
    reveal_with_fuel(Seq::<_>::filter, 5);
    assert(all.drop_last() =~= seq![PetState::Jump, PetState::Run, PetState::Review]);
    assert(all.drop_last().drop_last() =~= seq![PetState::Jump, PetState::Run]);
    assert(all.drop_last().drop_last().drop_last() =~= seq![PetState::Jump]);
    assert(all.drop_last().drop_last().drop_last().drop_last() =~= Seq::<PetState>::empty());
    let avail = available_specials(rows);
    if rows <= 2 {
        assert(avail =~= Seq::<PetState>::empty());
    } else if rows == 3 {
        assert(avail =~= seq![PetState::Run]);
    } else if rows == 4 {
        assert(avail =~= seq![PetState::Run, PetState::Failed]);
    } else if rows == 5 {
        assert(avail =~= seq![PetState::Run, PetState::Review, PetState::Failed]);
    } else {
        assert(avail =~= all);
    }
}

/// What starts to play starts at its first frame, on the same sheet. Idling is
/// never played once.
pub proof fn playing_starts_at_the_first_frame(a: AnimatorView, state: PetState, once: bool)
    ensures
        a.playing(state, once).state == state,
        a.playing(state, once).frame == 0,
        a.playing(state, once).rows == a.rows,
        a.playing(state, once).frames == a.frames,
        state != PetState::Idle ==> a.playing(state, once).once == once,
        !a.playing(PetState::Idle, once).once,
{
}

/// One frame later the next frame of the round is shown, or the first one again
/// once the round is over; only what is played once then gives way to idling.
pub proof fn a_step_goes_on_by_one(a: AnimatorView)
    ensures
        a.cell() == (row_shown(a.state, a.rows), a.frame),
        a.stepped().rows == a.rows,
        a.stepped().frames == a.frames,
        a.frame + 1 < a.frames ==> a.stepped().frame == a.frame + 1 && a.stepped().state == a.state
            && a.stepped().once == a.once,
        a.frame + 1 >= a.frames ==> a.stepped().frame == 0 && !a.stepped().once && a.stepped().state
            == (if a.once {
            PetState::Idle
        } else {
            a.state
        }),
{
}

/// The larger of two integers is one of them, and neither is larger.
pub proof fn the_larger_is_one_of_the_two(a: int, b: int)
    ensures
        max_of(a, b) == a || max_of(a, b) == b,
        max_of(a, b) >= a,
        max_of(a, b) >= b,
{
}

} // verus!
