//! Frame pacing and the play/pause/game-over state, with an objective
//! measurement of the frame rate beside it.
//!
//! Times are whole nanoseconds, counted from the moment the control was
//! created.

use std::collections::VecDeque;
use std::time::{Duration, Instant};

use vstd::prelude::*;

verus! {

#[verifier::external_type_specification]
#[verifier::external_body]
pub struct ExInstant(Instant);

/// `Instant::now`: the current time. Nothing is known of it.
#[verifier::external_body]
fn now() -> (t: Instant) {
    Instant::now()
}

/// `Instant::elapsed`: the time from `start` until now. Nothing is known of
/// it: it depends on the clock.
#[verifier::external_body]
fn elapsed_since(start: &Instant) -> (d: Duration) {
    start.elapsed()
}

/// `Duration::as_nanos`: the whole nanoseconds of `d`. `Duration` is opaque
/// here, so nothing is stated of the number.
#[verifier::external_body]
fn whole_nanos(d: Duration) -> (n: u128) {
    d.as_nanos()
}

/// `n` nanoseconds as a `u64`, `u64::MAX` if there are more (some five
/// centuries).
fn saturating_nanos(n: u128) -> (r: u64)
    ensures
        r == if n > u64::MAX {
            u64::MAX as int
        } else {
            n as int
        },
{
    if n > u64::MAX as u128 {
        u64::MAX
    } else {
        n as u64
    }
}

/// Nanoseconds from `start` until now, `u64::MAX` if there are more. What
/// the clock reads is the clock's: nothing is stated of the number.
fn nanos_since(start: &Instant) -> u64 {
    saturating_nanos(whole_nanos(elapsed_since(start)))
}

/// How many stored instants the frame-rate measurement keeps.
pub const FRAME_BUFFER_LEN: usize = 10;

/// What a frame counter holds: how often it stores an instant, how many frames
/// are left until it next does, and the stored instants, each with the number
/// of frames it stands for.
pub struct CounterView {
    pub step: nat,
    pub n: nat,
    pub buffer: Seq<(usize, u64)>,
}

/// The counter after `num_frames` more frames, the last of them at `now`.
pub open spec fn counter_after(c: CounterView, num_frames: nat, now: u64) -> CounterView {
    if c.n < num_frames {
        let kept = if c.buffer.len() >= FRAME_BUFFER_LEN {
            c.buffer.drop_first()
        } else {
            c.buffer
        };
        CounterView {
            step: c.step,
            n: (c.step - 1) as nat,
            buffer: kept.push(((c.step - c.n + num_frames - 1) as usize, now)),
        }
    } else {
        CounterView { step: c.step, n: (c.n - num_frames) as nat, buffer: c.buffer }
    }
}

/// The frames counted since the counter last stored an instant (once it has
/// stored one): `n` counts down from `step - 1` to the next one.
pub open spec fn frames_since_stored(c: CounterView) -> int {
    c.step - 1 - c.n
}

/// Each stored instant stands for the frames counted since the one before
/// it: a call that stores one stores it with those frames and the count
/// starts again from none; a call that does not adds its frames to the
/// count and keeps the stored instants.
pub proof fn lemma_stored_instant_counts_frames(c: CounterView, num_frames: nat, now: u64)
    requires
        c.step >= 1,
        c.n < c.step,
        c.step - c.n + num_frames <= usize::MAX,
    ensures
        c.n < num_frames ==> counter_after(c, num_frames, now).buffer.last() == (
        (frames_since_stored(c) + num_frames) as usize,
        now,
        ) && frames_since_stored(counter_after(c, num_frames, now)) == 0,
        num_frames <= c.n ==> counter_after(c, num_frames, now).buffer == c.buffer && frames_since_stored(
            counter_after(c, num_frames, now),
        ) == frames_since_stored(c) + num_frames,
{
}

/// The frames that the stored instants after the first stand for, together.
pub open spec fn frames_after_first(buffer: Seq<(usize, u64)>) -> nat
    decreases buffer.len(),
{
    if buffer.len() <= 1 {
        0
    } else {
        frames_after_first(buffer.drop_last()) + buffer.last().0 as nat
    }
}

/// The frames since the first stored instant and the nanoseconds they took,
/// once two instants are stored.
pub open spec fn span_of(buffer: Seq<(usize, u64)>) -> Option<(u128, u64)> {
    if buffer.len() < 2 {
        None
    } else {
        Some(
            (
                frames_after_first(buffer) as u128,
                (if buffer.last().1 >= buffer[0].1 {
                    buffer.last().1 - buffer[0].1
                } else {
                    0
                }) as u64,
            ),
        )
    }
}

/// Objective measurement of the frame rate from periodic calls to
/// [`FpsCounter::register_frames`], detached from any frame-rate regulation.
///
/// An instant is stored every `step` frames rather than every frame, as
/// reading the clock is a system call.
pub struct FpsCounter {
    step: usize,
    n: usize,
    buffer: VecDeque<(usize, u64)>,
}

impl FpsCounter {
    pub closed spec fn view(&self) -> CounterView {
        CounterView { step: self.step as nat, n: self.n as nat, buffer: self.buffer@ }
    }

    /// A counter's state is one it can reach: it stores an instant at least
    /// every frame, counts down from below its step, and keeps at most
    /// [`FRAME_BUFFER_LEN`] instants.
    pub open spec fn wf(&self) -> bool {
        &&& self.view().step >= 1
        &&& self.view().n < self.view().step
        &&& self.view().buffer.len() <= FRAME_BUFFER_LEN
    }

    pub fn new(expected_fps: usize) -> (counter: Self)
        ensures
            counter.wf(),
            counter.view().step == (if expected_fps < 1 {
                1
            } else {
                expected_fps
            }),
            counter.view().n == 0,
            counter.view().buffer.len() == 0,
    {
        let mut counter = FpsCounter { step: 1, n: 0, buffer: VecDeque::new() };
        counter.set_expected_fps(expected_fps);
        counter
    }

    /// Store an instant about once a second of frames at `expected_fps`, but
    /// at most every frame; and start measuring afresh.
    pub fn set_expected_fps(&mut self, expected_fps: usize)
        ensures
            final(self).wf(),
            final(self).view().step == (if expected_fps < 1 {
                1
            } else {
                expected_fps
            }),
            final(self).view().n == 0,
            final(self).view().buffer.len() == 0,
    {
        self.step = if expected_fps < 1 {
            1
        } else {
            expected_fps
        };
        self.reset();
    }

    /// Whether `num_frames` more frames can be counted at once: the frames
    /// since the last stored instant must fit in `usize`.
    pub fn can_register(&self, num_frames: usize) -> (ok: bool)
        requires
            self.wf(),
        ensures
            ok == (self.view().step - self.view().n + num_frames <= usize::MAX),
    {
        num_frames <= usize::MAX - (self.step - self.n)
    }

    /// Count `num_frames` more frames, the last of them at `now`.
    pub fn register_frames(&mut self, num_frames: usize, now: u64)
        requires
            old(self).wf(),
            old(self).view().step - old(self).view().n + num_frames <= usize::MAX,
        ensures
            final(self).wf(),
            final(self).view() == counter_after(old(self).view(), num_frames as nat, now),
    {
        if self.n < num_frames {
            if self.buffer.len() >= FRAME_BUFFER_LEN {
                self.buffer.pop_front();
            }
            self.buffer.push_back((self.step - self.n + num_frames - 1, now));
            self.n = self.step - 1;
        } else {
            self.n = self.n - num_frames;
        }
    }

    /// Forget what was measured.
    pub fn reset(&mut self)
        requires
            old(self).view().step >= 1,
        ensures
            final(self).wf(),
            final(self).view() == (CounterView {
                step: old(self).view().step,
                n: 0,
                buffer: Seq::empty(),
            }),
    {
        self.buffer.clear();
        self.n = 0;
    }

    /// What the frame rate is computed from: the frames since the first
    /// stored instant and the nanoseconds they took; nothing while fewer than
    /// two instants are stored.
    pub fn span(&self) -> (r: Option<(u128, u64)>)
        requires
            self.wf(),
        ensures
            r == span_of(self.view().buffer),
    {
        let len = self.buffer.len();
        if len < 2 {
            return None;
        }
        let first = self.buffer[0].1;
        let last = self.buffer[len - 1].1;
        let mut frames: u128 = 0;
        let mut i: usize = 1;
        let ghost b = self.buffer@;
        assert(b.take(1).drop_last() =~= b.take(0));
        while i < len
            invariant
                1 <= i <= len,
                len == b.len(),
                len <= FRAME_BUFFER_LEN,
                b == self.buffer@,
                frames == frames_after_first(b.take(i as int)),
                frames <= (i - 1) * usize::MAX,
            decreases len - i,
        {
            let f = self.buffer[i].0;
            proof {
                let t = b.take(i + 1);
                assert(t.drop_last() =~= b.take(i as int));
                assert(t.last() == b[i as int]);
                assert((i - 1) * usize::MAX + usize::MAX == i * usize::MAX) by (nonlinear_arith);
                assert(i * usize::MAX <= 10 * usize::MAX) by (nonlinear_arith)
                    requires
                        i <= 10,
                ;
            }
            frames = frames + f as u128;
            i = i + 1;
        }
        assert(b.take(len as int) =~= b);
        let nanos = if last >= first {
            last - first
        } else {
            0
        };
        Some((frames, nanos))
    }
}

#[derive(Copy, Clone, PartialEq, Eq, Debug, Structural)]
pub enum State {
    Playing,
    Paused,
    GameOver,
}

/// The frame duration the world advances by, given the running average `avg`
/// and a new measured duration `raw`: a stall longer than four times the
/// average counts as four times the average, and each frame contributes a
/// tenth of itself to the average (rounded down to whole nanoseconds).
pub open spec fn smoothed(avg: u64, raw: u64) -> int {
    let capped = if raw <= 4 * avg {
        raw as int
    } else {
        4 * avg
    };
    (9 * avg + capped) / 10
}

/// The duration the world advances by after the running average `paced`.
pub open spec fn pace_of(paced: Option<u64>, raw: u64) -> u64 {
    match paced {
        None => raw,
        Some(avg) => smoothed(avg, raw) as u64,
    }
}

/// What the control holds.
pub struct ControlView {
    pub state: State,
    /// Nanoseconds from the start to the last update
    pub last_update: u64,
    /// The running average of frame durations, once there was a frame
    pub paced: Option<u64>,
    pub graphics_frame_num: usize,
    /// Nanoseconds from the start to the last graphics frame
    pub elapsed_total: u64,
    pub counter: CounterView,
}

/// Frame pacing combined with the game state.
pub struct FpsControl {
    game_state: State,
    start: Instant,
    last_update: u64,
    paced: Option<u64>,
    graphics_frame_num: usize,
    elapsed_total: u64,
    measured_graphics_fps: FpsCounter,
}

impl FpsControl {
    pub closed spec fn view(&self) -> ControlView {
        ControlView {
            state: self.game_state,
            last_update: self.last_update,
            paced: self.paced,
            graphics_frame_num: self.graphics_frame_num,
            elapsed_total: self.elapsed_total,
            counter: self.measured_graphics_fps.view(),
        }
    }

    /// The frame counter measures at a rate of 60 frames per second, as
    /// it was made.
    pub closed spec fn wf(&self) -> bool {
        self.measured_graphics_fps.wf() && self.measured_graphics_fps.view().step == 60
    }

    pub fn new() -> (control: Self)
        ensures
            control.wf(),
            control.view().state == State::Playing,
            control.view().last_update == 0,
            control.view().paced is None,
            control.view().graphics_frame_num == 0,
            control.view().elapsed_total == 0,
            control.view().counter.n == 0,
            control.view().counter.buffer.len() == 0,
    {
        FpsControl {
            game_state: State::Playing,
            start: now(),
            last_update: 0,
            paced: None,
            graphics_frame_num: 0,
            elapsed_total: 0,
            measured_graphics_fps: FpsCounter::new(60),
        }
    }

    /// The duration the world advances by this frame, while playing: the
    /// time since the last update, smoothed by [`FpsControl::pace`].
    pub fn update(&mut self) -> (advance: Option<u64>)
        requires
            old(self).wf(),
        ensures
            final(self).wf(),
            old(self).view().state != State::Playing ==> advance is None && final(self).view()
                == old(self).view(),
            old(self).view().state == State::Playing ==> {
                let raw = if final(self).view().last_update >= old(self).view().last_update {
                    (final(self).view().last_update - old(self).view().last_update) as u64
                } else {
                    0
                };
                &&& advance == Some(pace_of(old(self).view().paced, raw))
                &&& final(self).view().paced == Some(pace_of(old(self).view().paced, raw))
                &&& final(self).view().state == old(self).view().state
                &&& final(self).view().graphics_frame_num == old(self).view().graphics_frame_num
                &&& final(self).view().elapsed_total == old(self).view().elapsed_total
                &&& final(self).view().counter == old(self).view().counter
            },
    {
        if self.game_state != State::Playing {
            return None;
        }
        let new_update = nanos_since(&self.start);
        let elapsed = if new_update >= self.last_update {
            new_update - self.last_update
        } else {
            0
        };
        self.last_update = new_update;
        Some(self.pace(elapsed))
    }

    /// Smooth a measured frame duration into the one the world advances by.
    ///
    /// The measured gap between updates jitters around the display's fixed
    /// cadence; a running average removes the noise while still following a
    /// genuine change of rate. The first frame has nothing to average against
    /// and is taken as it is.
    pub fn pace(&mut self, raw: u64) -> (advance: u64)
        ensures
            advance == pace_of(old(self).view().paced, raw),
            final(self).view() == (ControlView { paced: Some(advance), ..old(self).view() }),
            old(self).view().paced is None ==> advance == raw,
            old(self).view().paced matches Some(avg) ==> {
                &&& advance <= 4 * avg
                &&& (avg <= raw ==> avg <= advance <= raw)
                &&& (raw <= avg ==> raw <= advance <= avg)
            },
    {
        match self.paced {
            None => {
                self.paced = Some(raw);
                raw
            },
            Some(avg) => {
                let capped: u128 = if avg > u64::MAX / 4 || raw <= 4 * avg {
                    raw as u128
                } else {
                    4 * avg as u128
                };
                let advance = ((9 * avg as u128 + capped) / 10) as u64;
                self.paced = Some(advance);
                advance
            },
        }
    }

    /// Count a graphics frame, call from drawing.
    pub fn graphics_frame(&mut self)
        requires
            old(self).wf(),
        ensures
            final(self).wf(),
            final(self).view().counter == counter_after(
                old(self).view().counter,
                1,
                final(self).view().elapsed_total,
            ),
            final(self).view().graphics_frame_num == old(
                self,
            ).view().graphics_frame_num.wrapping_add(1),
            final(self).view().state == old(self).view().state,
            final(self).view().last_update == old(self).view().last_update,
            final(self).view().paced == old(self).view().paced,
    {
        let now = nanos_since(&self.start);
        self.measured_graphics_fps.register_frames(1, now);
        self.elapsed_total = now;
        self.graphics_frame_num = self.graphics_frame_num.wrapping_add(1);
    }

    /// Nanoseconds from the start until the last graphics frame.
    pub fn elapsed_total(&self) -> (nanos: u64)
        ensures
            nanos == self.view().elapsed_total,
    {
        self.elapsed_total
    }

    pub fn state(&self) -> (state: State)
        ensures
            state == self.view().state,
    {
        self.game_state
    }

    /// Play from now on: the time paused does not count as a frame.
    pub fn play(&mut self)
        ensures
            final(self).view() == (ControlView {
                state: State::Playing,
                last_update: final(self).view().last_update,
                ..old(self).view()
            }),
            old(self).wf() ==> final(self).wf(),
    {
        self.game_state = State::Playing;
        self.last_update = nanos_since(&self.start);
    }

    pub fn pause(&mut self)
        ensures
            final(self).view() == (ControlView { state: State::Paused, ..old(self).view() }),
            old(self).wf() ==> final(self).wf(),
    {
        self.game_state = State::Paused;
    }

    pub fn game_over(&mut self)
        ensures
            final(self).view() == (ControlView { state: State::GameOver, ..old(self).view() }),
            old(self).wf() ==> final(self).wf(),
    {
        self.game_state = State::GameOver;
    }

    /// What the measured graphics frame rate is computed from, as
    /// [`FpsCounter::span`].
    pub fn measured_graphics_span(&self) -> (r: Option<(u128, u64)>)
        requires
            self.wf(),
        ensures
            r == span_of(self.view().counter.buffer),
    {
        self.measured_graphics_fps.span()
    }
}

} // verus!
