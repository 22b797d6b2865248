//! Driver logic for 9x34 dot-matrix LED modules: frames and their merge
//! algebra, animation generators, the per-display runtime decisions and the
//! binary wire protocol.

use crate::animations::{Frame, FrameData, GrayFrame};
use crate::proto::Command;
use vstd::prelude::*;

pub mod animations;
pub mod config;
pub mod daemon;
pub mod display_thread;
pub mod proto;

verus! {

/// Whether any pixel of column `x` is lit.
pub open spec fn column_lit(frame: GrayFrame, x: int) -> bool {
    exists|y: int| 0 <= y < 34 && #[trigger] frame.0[x][y] != 0
}

/// The commands that stage the first `upto` columns of `frame`: one for each
/// column that has a lit pixel, from left to right. A column without one is
/// passed over; the device keeps what it had staged for it.
pub open spec fn staged<'a>(frame: &'a GrayFrame, upto: int) -> Seq<Command<'a>>
    decreases upto,
{
    if upto <= 0 {
        Seq::empty()
    } else if column_lit(*frame, upto - 1) {
        staged(frame, upto - 1).push(Command::StageCol((upto - 1) as u8, &frame.0[upto - 1]))
    } else {
        staged(frame, upto - 1)
    }
}

/// The commands that draw a grayscale frame: its lit columns are staged, then
/// all columns are flushed to the display.
pub open spec fn gray_plan<'a>(frame: &'a GrayFrame) -> Seq<Command<'a>> {
    staged(frame, 9).push(Command::FlushCols)
}

/// The commands that draw a frame: a monochrome frame takes one command, a
/// grayscale frame those of `gray_plan`.
pub open spec fn frame_plan<'a>(frame: &'a Frame) -> Seq<Command<'a>> {
    match &frame.data {
        FrameData::Gray(gray) => gray_plan(gray),
        FrameData::Bw(bw) => seq![Command::DrawBw(bw)],
    }
}

/// No command that draws a frame is answered by the device.
pub proof fn lemma_plan_is_unanswered(frame: Frame, at: int)
    requires
        0 <= at < frame_plan(&frame).len(),
    ensures
        frame_plan(&frame)[at].reply_len() == 0,
{
    match &frame.data {
        FrameData::Gray(gray) => {
            lemma_staged_is_unanswered(gray, 9);
        },
        FrameData::Bw(_) => {},
    }
}

proof fn lemma_staged_is_unanswered(frame: &GrayFrame, upto: int)
    ensures
        forall|at: int|
            0 <= at < staged(frame, upto).len() ==> (#[trigger] staged(frame, upto)[at]).reply_len()
                == 0,
    decreases upto,
{
    if upto > 0 {
        lemma_staged_is_unanswered(frame, upto - 1);
        let before = staged(frame, upto - 1);
        assert forall|at: int| 0 <= at < staged(frame, upto).len() implies (#[trigger] staged(
            frame,
            upto,
        )[at]).reply_len() == 0 by {
            if at < before.len() {
                assert(staged(frame, upto)[at] == before[at]);
            }
        }
    }
}

fn any_lit(column: &[u8; 34]) -> (lit: bool)
    ensures
        lit == exists|y: int| 0 <= y < 34 && #[trigger] column[y] != 0,
{
    let mut y: usize = 0;
    while y < 34
        invariant
            y <= 34,
            forall|j: int| 0 <= j < y ==> column[j] == 0,
        decreases 34 - y,
    {
        if column[y] != 0 {
            return true;
        }
        y += 1;
    }
    false
}

/// The commands that draw a grayscale frame, in the order in which they are
/// to be sent.
pub fn draw_gray_frame<'a>(frame: &'a GrayFrame) -> (commands: Vec<Command<'a>>)
    ensures
        commands@ == gray_plan(frame),
{
    let mut commands: Vec<Command<'a>> = Vec::new();
    let mut x: usize = 0;
    while x < 9
        invariant
            x <= 9,
            commands@ == staged(frame, x as int),
        decreases 9 - x,
    {
        if any_lit(&frame.0[x]) {
            commands.push(Command::StageCol(x as u8, &frame.0[x]));
        }
        x += 1;
    }
    commands.push(Command::FlushCols);
    commands
}

/// The commands that draw a frame, in the order in which they are to be sent.
pub fn draw_frame<'a>(frame: &'a Frame) -> (commands: Vec<Command<'a>>)
    ensures
        commands@ == frame_plan(frame),
{
    match &frame.data {
        FrameData::Gray(gray) => draw_gray_frame(gray),
        FrameData::Bw(bw) => {
            let mut commands: Vec<Command<'a>> = Vec::new();
            commands.push(Command::DrawBw(bw));
            commands
        },
    }
}

} // verus!
