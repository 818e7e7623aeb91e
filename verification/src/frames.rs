//! When the window is drawn, and how its picture is read back.
//!
//! Instants and delays are in nanoseconds.

use vstd::prelude::*;

verus! {

/// The longest that the window waits for a frame that was asked for.
pub const LONGEST_DELAY: u64 = 86_400_000_000_000;

/// How far ahead a frame is set that is asked for after a delay.
pub fn delay(asked: u64) -> (out: u64)
    ensures
        out == (if asked <= LONGEST_DELAY { asked } else { LONGEST_DELAY }),
{
    if asked <= LONGEST_DELAY {
        asked
    } else {
        LONGEST_DELAY
    }
}

/// The next frame that is set for later, if there is one.
#[derive(Clone, Copy, Debug, PartialEq, Eq, Structural)]
pub struct Schedule {
    pub next: Option<u64>,
}

/// What the window does until the next event.
#[derive(Clone, Copy, Debug, PartialEq, Eq, Structural)]
pub enum Idle {
    /// It draws now, and waits for an event.
    Draw,
    /// It waits for an event, but no longer than this.
    Until { instant: u64 },
    /// It waits for an event.
    Event,
}

/// The schedule once a frame has been asked for.
pub open spec fn asked(schedule: Schedule, now: u64, at: u64) -> Schedule {
    if at <= now {
        schedule
    } else {
        match schedule.next {
            Some(next) if next <= at => schedule,
            _ => Schedule { next: Some(at) },
        }
    }
}

/// What the window does with a schedule.
pub open spec fn idle_at(schedule: Schedule, now: u64) -> Idle {
    match schedule.next {
        Some(next) if next <= now => Idle::Draw,
        Some(next) => Idle::Until { instant: next },
        None => Idle::Event,
    }
}

/// What is left of a schedule once the window has gone idle.
pub open spec fn left_at(schedule: Schedule, now: u64) -> Schedule {
    match idle_at(schedule, now) {
        Idle::Draw => Schedule { next: None },
        _ => schedule,
    }
}

impl Schedule {
    /// Asks for a frame at an instant. Says whether that frame is due already, and
    /// else sets it, unless an earlier one is set.
    pub fn ask(&mut self, now: u64, at: u64) -> (due: bool)
        ensures
            due == (at <= now),
            *final(self) == asked(*old(self), now, at),
    {
        if at <= now {
            return true;
        }
        match self.next {
            Some(next) if next <= at => {},
            _ => {
                self.next = Some(at);
            },
        }
        false
    }

    /// Says what to do until the next event. A frame that is due leaves the
    /// schedule.
    pub fn idle(&mut self, now: u64) -> (out: Idle)
        ensures
            out == idle_at(*old(self), now),
            *final(self) == left_at(*old(self), now),
    {
        match self.next {
            Some(next) => {
                if next <= now {
                    self.next = None;
                    Idle::Draw
                } else {
                    Idle::Until { instant: next }
                }
            },
            None => Idle::Event,
        }
    }
}

/// Whether a frame is drawn at all: not while the window is minimized, nor without
/// something to draw on.
pub fn draws(minimized: Option<bool>, has_target: bool) -> (out: bool)
    ensures
        out == (minimized != Some(true) && has_target),
{
    match minimized {
        Some(true) => false,
        _ => has_target,
    }
}

/// A side of the first buffer, which is never empty.
pub fn buffer_side(side: u32) -> (out: u32)
    ensures
        out == (if side == 0 { 1u32 } else { side }),
{
    if side == 0 {
        1
    } else {
        side
    }
}

/// Whether a window of this size has something to draw on.
pub fn has_area(width: u32, height: u32) -> (out: bool)
    ensures
        out == (width != 0 && height != 0),
{
    width != 0 && height != 0
}

/// Byte `i` of rows of `stride` bytes, which start every `pitch` bytes.
pub open spec fn row_byte(mapped: Seq<u8>, stride: int, pitch: int, i: int) -> u8 {
    mapped[(i / stride) * pitch + i % stride]
}

/// Where a byte of a row stands among the rows without padding.
proof fn row_position(stride: int, row: int, i: int)
    requires
        0 < stride,
        0 <= row,
        0 <= i < stride,
    ensures
        (row * stride + i) / stride == row,
        (row * stride + i) % stride == i,
{
    vstd::arithmetic::div_mod::lemma_fundamental_div_mod_converse(
        row * stride + i,
        stride,
        row,
        i,
    );
}

/// Takes the rows of a picture, four bytes to the pixel, out of memory in which
/// each row is padded to `pitch` bytes.
pub fn rows(mapped: &[u8], width: u32, height: u32, pitch: u32) -> (out: Vec<u8>)
    requires
        0 < width,
        width * 4 * height <= isize::MAX,
        height > 0 ==> (height - 1) * pitch + width * 4 <= mapped@.len(),
    ensures
        out@ == Seq::new(
            (width * 4 * height) as nat,
            |i: int| row_byte(mapped@, width * 4, pitch as int, i),
        ),
{
    let mut out: Vec<u8> = Vec::new();
    if height == 0 {
        assert(width * 4 * height == 0) by (nonlinear_arith)
            requires
                height == 0,
        ;
        return out;
    }
    assert(width * 4 <= width * 4 * height) by (nonlinear_arith)
        requires
            height >= 1,
    ;
    let length: usize = mapped.len();
    let stride: usize = width as usize * 4;
    let mut row: u32 = 0;
    assert(0 * pitch == 0 && 0 * stride == 0);
    while row < height
        invariant
            row <= height,
            0 < height,
            0 < stride,
            stride == width * 4,
            length == mapped@.len(),
            (height - 1) * pitch + stride <= mapped@.len(),
            out@.len() == row * stride,
            forall|k: int|
                0 <= k < out@.len() ==> out@[k] == row_byte(
                    mapped@,
                    stride as int,
                    pitch as int,
                    k,
                ),
        decreases height - row,
    {
        assert(0 <= row * pitch <= (height - 1) * pitch) by (nonlinear_arith)
            requires
                0 <= row <= height - 1,
        ;
        let start: usize = row as usize * pitch as usize;
        let mut i: usize = 0;
        while i < stride
            invariant
                row < height,
                i <= stride,
                start == row * pitch,
                length == mapped@.len(),
                start + stride <= length,
                out@.len() == row * stride + i,
                forall|k: int|
                    0 <= k < out@.len() ==> out@[k] == row_byte(
                        mapped@,
                        stride as int,
                        pitch as int,
                        k,
                    ),
            decreases stride - i,
        {
            proof {
                row_position(stride as int, row as int, i as int);
            }
            out.push(mapped[start + i]);
            i += 1;
        }
        assert((row + 1) * stride == row * stride + stride) by (nonlinear_arith);
        row += 1;
    }
    assert(height * stride == width * 4 * height) by (nonlinear_arith)
        requires
            stride == width * 4,
    ;
    out
}

/// A frame that was asked for is drawn at the latest when the window next goes idle
/// after its instant, whatever else was set before.
pub proof fn law_no_frame_is_lost(schedule: Schedule, now: u64, at: u64, later: u64)
    requires
        now < at <= later,
    ensures
        idle_at(asked(schedule, now, at), later) == Idle::Draw,
{
}

/// Asking for more frames never sets one back that was set before.
pub proof fn law_frames_only_move_ahead(schedule: Schedule, now: u64, at: u64)
    requires
        schedule.next is Some,
    ensures
        asked(schedule, now, at).next is Some,
        asked(schedule, now, at).next->0 <= schedule.next->0,
{
}

/// A frame is drawn once: when it has been drawn, nothing is set, and the window
/// waits for an event.
pub proof fn law_a_frame_is_drawn_once(schedule: Schedule, now: u64, later: u64)
    requires
        idle_at(schedule, now) == Idle::Draw,
    ensures
        idle_at(left_at(schedule, now), later) == Idle::Event,
{
}

/// Rows without padding are taken as they stand.
pub proof fn law_unpadded_rows_stay(mapped: Seq<u8>, stride: int, i: int)
    requires
        0 < stride,
        0 <= i < mapped.len(),
    ensures
        row_byte(mapped, stride, stride, i) == mapped[i],
{
    vstd::arithmetic::div_mod::lemma_fundamental_div_mod(i, stride);
    assert((i / stride) * stride == stride * (i / stride)) by (nonlinear_arith);
}

/// The schedule keeps the earliest of the frames that were asked for and are not due
/// yet, and the window waits until that instant and no longer. With nothing set it
/// waits for an event.
pub proof fn law_the_earliest_frame_is_kept(schedule: Schedule, now: u64, at: u64)
    ensures
        at <= now ==> asked(schedule, now, at) == schedule,
        at > now && schedule.next is None ==> asked(schedule, now, at).next == Some(at),
        at > now && schedule.next is Some ==> asked(schedule, now, at).next == Some(
            if schedule.next->0 < at {
                schedule.next->0
            } else {
                at
            },
        ),
        schedule.next is None ==> idle_at(schedule, now) is Event,
        schedule.next is Some && schedule.next->0 > now ==> idle_at(schedule, now) == (
        Idle::Until { instant: schedule.next->0 }) && left_at(schedule, now) == schedule,
        schedule.next is Some && schedule.next->0 <= now ==> idle_at(schedule, now) is Draw,
        LONGEST_DELAY == 24 * 60 * 60 * 1_000_000_000,
{
}

/// Where a byte of a picture comes from: byte `i` of a row stands that far behind the
/// start of its row, and rows start `pitch` bytes apart.
pub proof fn law_rows_start_a_pitch_apart(
    mapped: Seq<u8>,
    stride: int,
    pitch: int,
    row: int,
    i: int,
)
    requires
        0 < stride,
        0 <= row,
        0 <= i < stride,
    ensures
        row_byte(mapped, stride, pitch, row * stride + i) == mapped[row * pitch + i],
{
    row_position(stride, row, i);
}

} // verus!
