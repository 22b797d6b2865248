//! Frames, the algebra that composes them, and the animations that yield them.

use crate::animations::file::FilePlayer;
use crate::animations::spread::Spread;
use crate::proto::{in_grid, BwFrame};
use vstd::prelude::*;

pub mod builder;
pub mod file;
pub mod settings;
pub mod spread;
pub mod text;

verus! {

/// A span of time in whole nanoseconds: how long a frame stays on the display.
#[derive(Clone, Copy, Debug, PartialEq, Eq, Structural)]
pub struct FrameDuration {
    pub nanos: u128,
}

impl FrameDuration {
    /// The longer of two spans.
    pub open spec fn longer(self, other: Self) -> Self {
        if self.nanos >= other.nanos {
            self
        } else {
            other
        }
    }

    /// What is left of `self` once `spent` has passed, and zero when more has
    /// passed than `self` holds.
    pub open spec fn remaining_after(self, spent: Self) -> Self {
        if self.nanos >= spent.nanos {
            FrameDuration { nanos: (self.nanos - spent.nanos) as u128 }
        } else {
            FrameDuration { nanos: 0 }
        }
    }

    /// No time at all.
    pub fn zero() -> (span: Self)
        ensures
            span.nanos == 0,
    {
        FrameDuration { nanos: 0 }
    }

    /// The span of `nanos` nanoseconds.
    pub fn from_nanos(nanos: u128) -> (span: Self)
        ensures
            span.nanos == nanos,
    {
        FrameDuration { nanos }
    }

    /// The span of `millis` milliseconds.
    pub fn from_millis(millis: u64) -> (span: Self)
        ensures
            span.nanos == millis * 1_000_000,
    {
        FrameDuration { nanos: (millis as u128) * 1_000_000 }
    }

    /// The span in nanoseconds.
    pub fn as_nanos(&self) -> (nanos: u128)
        ensures
            nanos == self.nanos,
    {
        self.nanos
    }

    /// The longer of two spans.
    pub fn max(self, other: Self) -> (span: Self)
        ensures
            span == self.longer(other),
    {
        if self.nanos >= other.nanos {
            self
        } else {
            other
        }
    }

    /// What is left of the span once `spent` has passed, and no time when
    /// more has passed than it holds.
    pub fn saturating_sub(self, spent: Self) -> (span: Self)
        ensures
            span == self.remaining_after(spent),
    {
        if self.nanos >= spent.nanos {
            FrameDuration { nanos: self.nanos - spent.nanos }
        } else {
            FrameDuration { nanos: 0 }
        }
    }
}

impl Default for FrameDuration {
    fn default() -> (span: Self)
        ensures
            span.nanos == 0,
    {
        FrameDuration { nanos: 0 }
    }
}

/// Pixel access on the 9 by 34 grid, shared by the two kinds of frame.
pub trait IsFrame: Default {
    type Pixel: Copy;

    /// The pixel in column `x` of row `y`.
    spec fn pixel_at(&self, x: int, y: int) -> Self::Pixel;

    /// The value of a pixel that is off.
    spec fn dark() -> Self::Pixel;

    /// Whether the frame holds nothing but its pixels: every bit of storage
    /// that is no pixel is zero.
    spec fn settled(&self) -> bool;

    /// Two settled frames with the same pixels are the same frame.
    proof fn lemma_pixels_decide(a: Self, b: Self)
        requires
            a.settled(),
            b.settled(),
            forall|x: int, y: int|
                in_grid(x, y) ==> #[trigger] a.pixel_at(x, y) == b.pixel_at(x, y),
        ensures
            a == b,
    ;

    /// The frame with every pixel off.
    fn blank() -> (frame: Self)
        ensures
            frame.settled(),
            forall|x: int, y: int|
                in_grid(x, y) ==> #[trigger] frame.pixel_at(x, y) == Self::dark(),
    ;

    /// Reads one pixel. Outside the grid every pixel reads as off.
    fn get(&self, x: u8, y: u8) -> (pixel: Self::Pixel)
        ensures
            pixel == if in_grid(x as int, y as int) {
                self.pixel_at(x as int, y as int)
            } else {
                Self::dark()
            },
    ;

    /// Writes one pixel and leaves the others as they were. A position outside
    /// the grid is ignored.
    fn set(&mut self, x: u8, y: u8, pixel: Self::Pixel)
        ensures
            !in_grid(x as int, y as int) ==> *final(self) == *old(self),
            old(self).settled() ==> final(self).settled(),
            forall|i: int, j: int|
                in_grid(i, j) ==> #[trigger] final(self).pixel_at(i, j) == if i == x && j == y {
                    pixel
                } else {
                    old(self).pixel_at(i, j)
                },
    ;

    /// Moves every row down by `offset` (up when it is negative). Rows that
    /// leave the grid are dropped, rows that nothing moves into are off, and
    /// columns stay.
    fn offset(self, offset: i8) -> (shifted: Self)
        ensures
            shifted.settled(),
            forall|x: int, y: int|
                in_grid(x, y) ==> #[trigger] shifted.pixel_at(x, y) == if 0 <= y - offset < 34 {
                    self.pixel_at(x, y - offset)
                } else {
                    Self::dark()
                },
    {
        let mut result = Self::blank();
        let mut y: u8 = 0;
        while y < 34
            invariant
                y <= 34,
                result.settled(),
                forall|i: int, j: int|
                    in_grid(i, j) ==> #[trigger] result.pixel_at(i, j) == if j < y && 0 <= j
                        - offset < 34 {
                        self.pixel_at(i, j - offset)
                    } else {
                        Self::dark()
                    },
            decreases 34 - y,
        {
            let oy: i16 = y as i16 - offset as i16;
            if 0 <= oy && oy <= 33 {
                let mut x: u8 = 0;
                while x < 9
                    invariant
                        x <= 9,
                        y < 34,
                        oy == y - offset,
                        0 <= oy <= 33,
                        result.settled(),
                        forall|i: int, j: int|
                            in_grid(i, j) ==> #[trigger] result.pixel_at(i, j) == if (j < y || (j
                                == y && i < x)) && 0 <= j - offset < 34 {
                                self.pixel_at(i, j - offset)
                            } else {
                                Self::dark()
                            },
                    decreases 9 - x,
                {
                    let pixel = self.get(x, oy as u8);
                    result.set(x, y, pixel);
                    x += 1;
                }
            }
            y += 1;
        }
        result
    }
}

/// A frame of 8-bit brightness values, stored column by column.
#[derive(Clone, Copy, Debug, PartialEq, Eq)]
pub struct GrayFrame(pub [[u8; 34]; 9]);

impl GrayFrame {
    /// The brightness of the pixel in column `x` of row `y`.
    pub open spec fn level(&self, x: int, y: int) -> u8 {
        self.0[x][y]
    }

    /// The frame with every pixel at zero.
    pub(crate) fn zeroed() -> (frame: Self)
        ensures
            forall|x: int, y: int| in_grid(x, y) ==> frame.0[x][y] == 0,
    {
        let column: [u8; 34] = [0; 34];
        let frame = GrayFrame([column; 9]);
        assert(column == vstd::array::spec_array_fill_for_copy_type::<u8, 34>(0u8));
        assert(frame.0 == vstd::array::spec_array_fill_for_copy_type::<[u8; 34], 9>(column));
        proof {
            assert forall|x: int, y: int| in_grid(x, y) implies frame.0[x][y] == 0 by {
                assert(frame.0[x] == column);
                assert(column[y] == 0);
            }
        }
        frame
    }

    /// The grayscale form of a monochrome frame: `brightness` where a pixel is
    /// lit, zero where it is not.
    pub fn from_bw(bw: BwFrame, brightness: u8) -> (frame: Self)
        ensures
            forall|x: int, y: int|
                in_grid(x, y) ==> #[trigger] frame.level(x, y) == if bw.pixel(x, y) {
                    brightness
                } else {
                    0u8
                },
    {
        let mut result = GrayFrame::zeroed();
        let mut x: u8 = 0;
        while x < 9
            invariant
                x <= 9,
                forall|i: int, j: int|
                    in_grid(i, j) ==> result.0[i][j] == if i < x && bw.pixel(i, j) {
                        brightness
                    } else {
                        0u8
                    },
            decreases 9 - x,
        {
            let mut y: u8 = 0;
            while y < 34
                invariant
                    x < 9,
                    y <= 34,
                    forall|i: int, j: int|
                        in_grid(i, j) ==> result.0[i][j] == if (i < x || (i == x && j < y))
                            && bw.pixel(i, j) {
                            brightness
                        } else {
                            0u8
                        },
                decreases 34 - y,
            {
                if bw.get(x, y) {
                    result.0[x as usize][y as usize] = brightness;
                }
                y += 1;
            }
            x += 1;
        }
        result
    }

    /// Overlays two frames: each pixel of the result has the greater of the two
    /// brightness values.
    pub fn merge(self, other: Self) -> (merged: Self)
        ensures
            forall|x: int, y: int|
                in_grid(x, y) ==> #[trigger] merged.level(x, y) == if self.level(x, y)
                    >= other.level(x, y) {
                    self.level(x, y)
                } else {
                    other.level(x, y)
                },
    {
        let mut result = self;
        let mut x: usize = 0;
        while x < 9
            invariant
                x <= 9,
                forall|i: int, j: int|
                    in_grid(i, j) ==> result.0[i][j] == if i < x && other.level(i, j)
                        > self.level(i, j) {
                        other.level(i, j)
                    } else {
                        self.level(i, j)
                    },
            decreases 9 - x,
        {
            let mut y: usize = 0;
            while y < 34
                invariant
                    x < 9,
                    y <= 34,
                    forall|i: int, j: int|
                        in_grid(i, j) ==> result.0[i][j] == if (i < x || (i == x && j < y))
                            && other.level(i, j) > self.level(i, j) {
                            other.level(i, j)
                        } else {
                            self.level(i, j)
                        },
                decreases 34 - y,
            {
                if other.0[x][y] > result.0[x][y] {
                    result.0[x][y] = other.0[x][y];
                }
                y += 1;
            }
            x += 1;
        }
        result
    }
}

impl Default for GrayFrame {
    fn default() -> (frame: Self)
        ensures
            forall|x: int, y: int| in_grid(x, y) ==> #[trigger] frame.level(x, y) == 0,
    {
        GrayFrame::zeroed()
    }
}

impl IsFrame for GrayFrame {
    type Pixel = u8;

    open spec fn pixel_at(&self, x: int, y: int) -> u8 {
        self.level(x, y)
    }

    open spec fn dark() -> u8 {
        0
    }

    open spec fn settled(&self) -> bool {
        true
    }

    proof fn lemma_pixels_decide(a: Self, b: Self) {
        assert forall|x: int| 0 <= x < 9 implies a.0[x] == b.0[x] by {
            assert forall|y: int| 0 <= y < 34 implies a.0[x][y] == b.0[x][y] by {
                assert(in_grid(x, y));
                assert(a.pixel_at(x, y) == b.pixel_at(x, y));
            }
            assert(a.0[x] =~= b.0[x]);
        }
        assert(a.0 =~= b.0);
    }

    fn blank() -> (frame: Self) {
        GrayFrame::zeroed()
    }

    fn get(&self, x: u8, y: u8) -> (pixel: u8) {
        if x < 9 && y < 34 {
            self.0[x as usize][y as usize]
        } else {
            0
        }
    }

    fn set(&mut self, x: u8, y: u8, pixel: u8) {
        if x < 9 && y < 34 {
            self.0[x as usize][y as usize] = pixel;
        }
    }
}

/// The pixels of a frame in one of the two representations.
#[derive(Clone, Copy, Debug, PartialEq, Eq)]
pub enum FrameData {
    Gray(GrayFrame),
    Bw(BwFrame),
}

impl FrameData {
    /// The brightness that the pixel in column `x` of row `y` has once a lit
    /// monochrome pixel counts as `bw_brightness`.
    pub open spec fn level(&self, x: int, y: int, bw_brightness: u8) -> u8 {
        match *self {
            FrameData::Gray(frame) => frame.level(x, y),
            FrameData::Bw(frame) => if frame.pixel(x, y) {
                bw_brightness
            } else {
                0u8
            },
        }
    }
}

/// One picture of an animation.
#[derive(Clone, Copy, Debug, PartialEq, Eq)]
pub struct Frame {
    pub data: FrameData,
    /// How long the frame stays before the next one is drawn.
    pub min_duration: FrameDuration,
    /// Whether the frame hides everything that plays beside it.
    pub fullscreen: bool,
}

impl Frame {
    /// Whether `result` is `upper` laid over `lower`. A fullscreen frame wins
    /// whole, the upper one first. Otherwise two monochrome frames give a
    /// monochrome frame with the lit pixels of both, and any other pair a
    /// grayscale frame with the brighter pixel of the two at each place.
    pub open spec fn merged(lower: Frame, upper: Frame, bw_brightness: u8, result: Frame) -> bool {
        if upper.fullscreen {
            result == upper
        } else if lower.fullscreen {
            result == lower
        } else {
            &&& !result.fullscreen
            &&& result.min_duration == lower.min_duration.longer(upper.min_duration)
            &&& match (lower.data, upper.data) {
                (FrameData::Bw(a), FrameData::Bw(b)) => {
                    &&& result.data matches FrameData::Bw(r)
                    &&& BwFrame::overlay(a, b, r)
                },
                _ => {
                    &&& result.data matches FrameData::Gray(r)
                    &&& forall|x: int, y: int|
                        in_grid(x, y) ==> #[trigger] r.level(x, y) == if lower.data.level(
                            x,
                            y,
                            bw_brightness,
                        ) >= upper.data.level(x, y, bw_brightness) {
                            lower.data.level(x, y, bw_brightness)
                        } else {
                            upper.data.level(x, y, bw_brightness)
                        }
                },
            }
        }
    }

    /// Whether `result` is `source` with its rows moved down by `offset`: the
    /// same kind of frame, the same duration and flag, each pixel taken from
    /// `offset` rows above and unlit where that row is outside the grid.
    pub open spec fn shifted(source: Frame, offset: int, result: Frame) -> bool {
        &&& result.min_duration == source.min_duration
        &&& result.fullscreen == source.fullscreen
        &&& match source.data {
            FrameData::Gray(from) => {
                &&& result.data matches FrameData::Gray(to)
                &&& forall|x: int, y: int|
                    in_grid(x, y) ==> #[trigger] to.level(x, y) == if 0 <= y - offset < 34 {
                        from.level(x, y - offset)
                    } else {
                        0u8
                    }
            },
            FrameData::Bw(from) => {
                &&& result.data matches FrameData::Bw(to)
                &&& to.tidy()
                &&& forall|x: int, y: int|
                    in_grid(x, y) ==> #[trigger] to.pixel(x, y) == (0 <= y - offset < 34
                        && from.pixel(x, y - offset))
            },
        }
    }

    /// Only one frame is the merge of two given frames.
    pub proof fn lemma_merge_decided(
        lower: Frame,
        upper: Frame,
        bw_brightness: u8,
        first: Frame,
        second: Frame,
    )
        requires
            Frame::merged(lower, upper, bw_brightness, first),
            Frame::merged(lower, upper, bw_brightness, second),
        ensures
            first == second,
    {
        if !upper.fullscreen && !lower.fullscreen {
            match (first.data, second.data) {
                (FrameData::Bw(r1), FrameData::Bw(r2)) => {
                    assert(r1.0 =~= r2.0);
                },
                (FrameData::Gray(r1), FrameData::Gray(r2)) => {
                    assert forall|x: int, y: int| in_grid(x, y) implies #[trigger] r1.pixel_at(x, y)
                        == r2.pixel_at(x, y) by {
                        assert(r1.level(x, y) == r2.level(x, y));
                    }
                    GrayFrame::lemma_pixels_decide(r1, r2);
                },
                _ => {},
            }
        }
    }

    /// Only one frame is a given frame moved by a given offset.
    pub proof fn lemma_shift_decided(source: Frame, offset: int, first: Frame, second: Frame)
        requires
            Frame::shifted(source, offset, first),
            Frame::shifted(source, offset, second),
        ensures
            first == second,
    {
        match (first.data, second.data) {
            (FrameData::Bw(r1), FrameData::Bw(r2)) => {
                assert forall|x: int, y: int| in_grid(x, y) implies #[trigger] r1.pixel_at(x, y)
                    == r2.pixel_at(x, y) by {
                    assert(r1.pixel(x, y) == r2.pixel(x, y));
                }
                BwFrame::lemma_pixels_decide(r1, r2);
            },
            (FrameData::Gray(r1), FrameData::Gray(r2)) => {
                assert forall|x: int, y: int| in_grid(x, y) implies #[trigger] r1.pixel_at(x, y)
                    == r2.pixel_at(x, y) by {
                    assert(r1.level(x, y) == r2.level(x, y));
                }
                GrayFrame::lemma_pixels_decide(r1, r2);
            },
            _ => {},
        }
    }

    /// Whether every pixel of `frame` is off that would leave the grid when
    /// the rows are moved down by `offset`.
    pub open spec fn keeps_rows(frame: Frame, offset: int) -> bool {
        forall|x: int, y: int|
            in_grid(x, y) && !(0 <= y + offset < 34) ==> #[trigger] frame.data.level(x, y, 1) == 0
    }

    /// Moving the rows of a frame and moving them back by as much gives the
    /// frame again, where no lit row leaves the grid on the way and the frame
    /// holds nothing but its pixels.
    pub proof fn lemma_offset_round_trip(frame: Frame, offset: int, moved: Frame, back: Frame)
        requires
            Frame::shifted(frame, offset, moved),
            Frame::shifted(moved, -offset, back),
            Frame::keeps_rows(frame, offset),
            frame.data matches FrameData::Bw(bw) ==> bw.tidy(),
        ensures
            back == frame,
    {
        match (frame.data, moved.data, back.data) {
            (FrameData::Bw(a), FrameData::Bw(m), FrameData::Bw(b)) => {
                assert forall|x: int, y: int| in_grid(x, y) implies #[trigger] b.pixel_at(x, y)
                    == a.pixel_at(x, y) by {
                    assert(b.pixel(x, y) == (0 <= y + offset < 34 && m.pixel(x, y + offset)));
                    if 0 <= y + offset < 34 {
                        assert(in_grid(x, y + offset));
                        assert(m.pixel(x, y + offset) == a.pixel(x, y));
                    } else {
                        assert(frame.data.level(x, y, 1) == 0);
                    }
                }
                BwFrame::lemma_pixels_decide(b, a);
            },
            (FrameData::Gray(a), FrameData::Gray(m), FrameData::Gray(b)) => {
                assert forall|x: int, y: int| in_grid(x, y) implies #[trigger] b.pixel_at(x, y)
                    == a.pixel_at(x, y) by {
                    assert(b.level(x, y) == if 0 <= y + offset < 34 {
                        m.level(x, y + offset)
                    } else {
                        0u8
                    });
                    if 0 <= y + offset < 34 {
                        assert(in_grid(x, y + offset));
                        assert(m.level(x, y + offset) == a.level(x, y));
                    } else {
                        assert(frame.data.level(x, y, 1) == 0);
                    }
                }
                GrayFrame::lemma_pixels_decide(b, a);
            },
            _ => {},
        }
    }

    /// The merge of two frames of which neither is fullscreen is not
    /// fullscreen, and stays as long as the longer of the two.
    pub proof fn lemma_merge_of_partial_frames(a: Frame, b: Frame, bw_brightness: u8, merged: Frame)
        requires
            !a.fullscreen,
            !b.fullscreen,
            Frame::merged(a, b, bw_brightness, merged),
        ensures
            merged.min_duration == a.min_duration.longer(b.min_duration),
            merged.min_duration.nanos == vstd::math::max(
                a.min_duration.nanos as int,
                b.min_duration.nanos as int,
            ),
            !merged.fullscreen,
    {
    }

    /// A fullscreen frame laid over any frame comes out unchanged.
    pub proof fn lemma_fullscreen_upper_wins(a: Frame, f: Frame, bw_brightness: u8, merged: Frame)
        requires
            f.fullscreen,
            Frame::merged(a, f, bw_brightness, merged),
        ensures
            merged == f,
    {
    }

    /// A fullscreen frame under a frame that is not fullscreen, or under
    /// itself, comes out unchanged.
    pub proof fn lemma_fullscreen_lower_wins(f: Frame, a: Frame, bw_brightness: u8, merged: Frame)
        requires
            f.fullscreen,
            !a.fullscreen || a == f,
            Frame::merged(f, a, bw_brightness, merged),
        ensures
            merged == f,
    {
    }

    /// Lays `upper` over this frame.
    pub fn merge(self, upper: Frame, bw_brightness: u8) -> (result: Frame)
        ensures
            Frame::merged(self, upper, bw_brightness, result),
    {
        if upper.fullscreen {
            return upper;
        }
        if self.fullscreen {
            return self;
        }
        let data = match (self.data, upper.data) {
            (FrameData::Bw(lower), FrameData::Bw(upper)) => FrameData::Bw(lower.merge(upper)),
            (FrameData::Gray(lower), FrameData::Gray(upper)) => FrameData::Gray(
                lower.merge(upper),
            ),
            (FrameData::Bw(lower), FrameData::Gray(upper)) => FrameData::Gray(
                GrayFrame::from_bw(lower, bw_brightness).merge(upper),
            ),
            (FrameData::Gray(lower), FrameData::Bw(upper)) => FrameData::Gray(
                lower.merge(GrayFrame::from_bw(upper, bw_brightness)),
            ),
        };
        Frame { data, min_duration: self.min_duration.max(upper.min_duration), fullscreen: false }
    }

    /// Moves the rows of the frame down by `offset`, up when it is negative.
    pub fn offset(self, offset: i8) -> (result: Frame)
        ensures
            Frame::shifted(self, offset as int, result),
    {
        let data = match self.data {
            FrameData::Gray(frame) => {
                let moved = frame.offset(offset);
                assert forall|x: int, y: int| in_grid(x, y) implies #[trigger] moved.level(x, y)
                    == if 0 <= y - offset < 34 {
                    frame.level(x, y - offset)
                } else {
                    0u8
                } by {
                    assert(moved.pixel_at(x, y) == moved.level(x, y));
                }
                FrameData::Gray(moved)
            },
            FrameData::Bw(frame) => {
                let moved = frame.offset(offset);
                assert forall|x: int, y: int| in_grid(x, y) implies #[trigger] moved.pixel(x, y)
                    == (0 <= y - offset < 34 && frame.pixel(x, y - offset)) by {
                    assert(moved.pixel_at(x, y) == moved.pixel(x, y));
                }
                FrameData::Bw(moved)
            },
        };
        Frame { data, min_duration: self.min_duration, fullscreen: self.fullscreen }
    }
}

/// A sequence of frames that is produced one frame at a time, and cannot be
/// started again once it is over.
pub enum Animation {
    /// The frames of a keyframe file.
    File(FilePlayer),
    /// The generations of a diffusion.
    Spread(Spread),
}

impl Animation {
    /// Whether the animation has no frame left.
    pub open spec fn over(&self) -> bool {
        match *self {
            Animation::File(player) => player.upcoming().len() == 0,
            Animation::Spread(spread) => spread.dark(),
        }
    }

    /// Whether `frame` is the frame that the animation yields next.
    pub open spec fn yields(&self, frame: Frame) -> bool {
        match *self {
            Animation::File(player) => {
                &&& player.upcoming().len() > 0
                &&& Frame::shifted(player.upcoming()[0], player.offset as int, frame)
            },
            Animation::Spread(spread) => {
                &&& !spread.dark()
                &&& !frame.fullscreen
                &&& frame.min_duration == spread.duration()
                &&& frame.data matches FrameData::Gray(picture)
                &&& spread.shown_by(picture)
            },
        }
    }

    /// Whether `after` is what is left of the animation once it has yielded
    /// its next frame.
    pub open spec fn advances_to(&self, after: Animation) -> bool {
        match (*self, after) {
            (Animation::File(player), Animation::File(rest)) => {
                &&& rest.upcoming() == player.upcoming().skip(1)
                &&& rest.offset == player.offset
            },
            (Animation::Spread(spread), Animation::Spread(next)) => spread.followed_by(next),
            _ => false,
        }
    }

    /// Yields the next frame, or nothing once the animation is over.
    pub fn next(&mut self) -> (frame: Option<Frame>)
        ensures
            match frame {
                None => old(self).over() && final(self).over(),
                Some(frame) => old(self).yields(frame) && old(self).advances_to(*final(self)),
            },
    {
        match self {
            Animation::File(player) => player.next(),
            Animation::Spread(spread) => {
                let frame = spread.next();
                proof {
                    if frame is None {
                        assert forall|y: int, x: int| #[trigger] spread.cell(y, x) is None by {
                            assert(old(self)->Spread_0.cell(y, x) is None);
                        }
                    }
                }
                frame
            },
        }
    }
}

} // verus!
