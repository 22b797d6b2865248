//! The decisions of the worker that drives one display: which animations play,
//! what is drawn on each tick, and what the worker does next.

use crate::animations::{Animation, Frame, FrameData, FrameDuration};
use crate::proto::{BwFrame, Command};
use vstd::prelude::*;

verus! {

/// What a display is asked to do from outside.
pub enum DisplayCommand {
    SetBrightness(u8),
    AddAnimation(Animation),
}

/// What happened since the worker last acted.
pub enum Event {
    /// The worker has started.
    Started,
    /// The worker has looked for a command without waiting; there may be
    /// none.
    Polled(Option<DisplayCommand>),
    /// The worker has waited for a command; there is none where no sender is
    /// left.
    Woken(Option<DisplayCommand>),
}

/// What the worker does once it has carried out a reaction.
#[derive(Clone, Copy, Debug, PartialEq, Eq)]
pub enum Next {
    /// Look for a command without waiting.
    Poll,
    /// Sleep for what is left of the time since the drawing started, then
    /// look for a command without waiting.
    Pace(FrameDuration),
    /// Wait until a command comes.
    Wait,
    /// Stop for good.
    Stop,
}

/// What the worker is to do: send `control`, draw `draw`, and go on as `next`
/// says. The time of a pace counts from the start of the drawing.
pub struct Reaction {
    /// The command that sets the brightness, where it has changed.
    pub control: Option<Command<'static>>,
    /// The frame to draw on this tick.
    pub draw: Option<Frame>,
    pub next: Next,
}

/// The state of one display: its brightness and the animations that play on
/// it, in the order they were added.
pub struct Matrix {
    pub brightness: u8,
    pub animations: Vec<Animation>,
}

/// Whether one step of every animation in `before` leaves the animations
/// `after` and yields the frames `frames`: an animation that is over is
/// dropped, every other one yields its next frame and stays, and the order is
/// kept.
pub open spec fn advanced(before: Seq<Animation>, after: Seq<Animation>, frames: Seq<Frame>) -> bool
    decreases before.len(),
{
    if before.len() == 0 {
        after.len() == 0 && frames.len() == 0
    } else if before.last().over() {
        advanced(before.drop_last(), after, frames)
    } else {
        &&& after.len() > 0
        &&& frames.len() > 0
        &&& before.last().yields(frames.last())
        &&& before.last().advances_to(after.last())
        &&& advanced(before.drop_last(), after.drop_last(), frames.drop_last())
    }
}

/// Whether `layers` are the merges of the frames from the first one on:
/// `layers[k]` is the first `k + 1` frames laid over one another, each over
/// the merge of those before it.
pub open spec fn layered(frames: Seq<Frame>, bw_brightness: u8, layers: Seq<Frame>) -> bool {
    &&& layers.len() == frames.len()
    &&& frames.len() > 0 ==> layers[0] == frames[0]
    &&& forall|k: int|
        1 <= k < frames.len() ==> Frame::merged(
            layers[k - 1],
            frames[k],
            bw_brightness,
            #[trigger] layers[k],
        )
}

/// Whether `result` is all of `frames` laid over one another, the first
/// lowest. There is no such frame where `frames` is empty.
pub open spec fn composed(frames: Seq<Frame>, bw_brightness: u8, result: Frame) -> bool {
    exists|layers: Seq<Frame>|
        {
            &&& #[trigger] layered(frames, bw_brightness, layers)
            &&& frames.len() > 0
            &&& result == layers.last()
        }
}

/// Where a frame is fullscreen and none after it is, all of the frames laid
/// over one another show that frame alone.
pub proof fn lemma_fullscreen_hides_rest(
    frames: Seq<Frame>,
    bw_brightness: u8,
    result: Frame,
    last: int,
)
    requires
        composed(frames, bw_brightness, result),
        0 <= last < frames.len(),
        frames[last].fullscreen,
        forall|later: int| last < later < frames.len() ==> !(#[trigger] frames[later]).fullscreen,
    ensures
        result == frames[last],
{
    let layers = choose|layers: Seq<Frame>|
        {
            &&& #[trigger] layered(frames, bw_brightness, layers)
            &&& frames.len() > 0
            &&& result == layers.last()
        };
    if last > 0 {
        assert(Frame::merged(layers[last - 1], frames[last], bw_brightness, layers[last]));
    }
    lemma_layers_keep_fullscreen(frames, bw_brightness, layers, last, frames.len() - 1);
}

/// Above a fullscreen frame that no fullscreen frame follows, every merge is
/// that frame.
proof fn lemma_layers_keep_fullscreen(
    frames: Seq<Frame>,
    bw_brightness: u8,
    layers: Seq<Frame>,
    last: int,
    upto: int,
)
    requires
        layered(frames, bw_brightness, layers),
        0 <= last <= upto < frames.len(),
        frames[last].fullscreen,
        layers[last] == frames[last],
        forall|later: int| last < later < frames.len() ==> !(#[trigger] frames[later]).fullscreen,
    ensures
        layers[upto] == frames[last],
    decreases upto - last,
{
    if last < upto {
        lemma_layers_keep_fullscreen(frames, bw_brightness, layers, last, upto - 1);
        assert(!frames[upto].fullscreen);
        assert(Frame::merged(layers[upto - 1], frames[upto], bw_brightness, layers[upto]));
    }
}

/// Lays the frames over one another, the first lowest.
pub fn compose(frames: &Vec<Frame>, bw_brightness: u8) -> (result: Option<Frame>)
    ensures
        match result {
            None => frames@.len() == 0,
            Some(frame) => composed(frames@, bw_brightness, frame),
        },
{
    if frames.len() == 0 {
        return None;
    }
    let mut result = frames[0];
    let mut idx: usize = 1;
    let ghost mut layers: Seq<Frame> = seq![frames@[0]];
    while idx < frames.len()
        invariant
            1 <= idx <= frames@.len(),
            layered(frames@.take(idx as int), bw_brightness, layers),
            result == layers.last(),
        decreases frames@.len() - idx,
    {
        result = result.merge(frames[idx], bw_brightness);
        proof {
            layers = layers.push(result);
        }
        idx += 1;
    }
    assert(frames@.take(frames@.len() as int) =~= frames@);
    Some(result)
}

impl Matrix {
    /// The state of a display at full brightness on which nothing plays.
    pub fn new() -> (matrix: Self)
        ensures
            matrix.brightness == 255,
            matrix.animations@.len() == 0,
    {
        Matrix { brightness: 255, animations: Vec::new() }
    }

    /// Sets the brightness. The result is the command that tells the device.
    pub fn set_brightness(&mut self, brightness: u8) -> (command: Command<'static>)
        ensures
            final(self).brightness == brightness,
            final(self).animations == old(self).animations,
            command == Command::SetBrightness(brightness),
    {
        self.brightness = brightness;
        Command::SetBrightness(brightness)
    }

    /// Takes in a command: a new brightness is kept and has to be sent to the
    /// device, a new animation joins the others as the last.
    pub fn process_command(&mut self, command: DisplayCommand) -> (sent: Option<
        Command<'static>,
    >)
        ensures
            Matrix::taken_in(*old(self), command, *final(self), sent),
    {
        match command {
            DisplayCommand::SetBrightness(brightness) => Some(self.set_brightness(brightness)),
            DisplayCommand::AddAnimation(animation) => {
                self.animations.push(animation);
                None
            },
        }
    }

    /// Steps every animation once. Those that are over are dropped; the frames
    /// of the others are laid over one another in the order of the
    /// animations. There is no frame where none is left.
    pub fn tick(&mut self) -> (frame: Option<Frame>)
        ensures
            final(self).brightness == old(self).brightness,
            exists|frames: Seq<Frame>|
                {
                    &&& #[trigger] advanced(old(self).animations@, final(self).animations@, frames)
                    &&& match frame {
                        None => frames.len() == 0,
                        Some(frame) => composed(frames, old(self).brightness, frame),
                    }
                },
    {
        let mut waiting: Vec<Animation> = Vec::new();
        std::mem::swap(&mut self.animations, &mut waiting);
        let mut frames: Vec<Frame> = Vec::new();
        let ghost all = waiting@;
        let ghost mut done: int = 0;
        while waiting.len() > 0
            invariant
                self.brightness == old(self).brightness,
                all == old(self).animations@,
                0 <= done <= all.len(),
                waiting@ == all.skip(done),
                advanced(all.take(done), self.animations@, frames@),
            decreases waiting@.len(),
        {
            let mut animation = waiting.remove(0);
            let ghost before = animation;
            assert(before == all[done]);
            let ghost kept = self.animations@;
            let ghost shown = frames@;
            match animation.next() {
                Some(frame) => {
                    frames.push(frame);
                    self.animations.push(animation);
                    proof {
                        assert(all.take(done + 1).drop_last() =~= all.take(done));
                        assert(self.animations@.drop_last() =~= kept);
                        assert(frames@.drop_last() =~= shown);
                    }
                },
                None => {
                    proof {
                        assert(all.take(done + 1).drop_last() =~= all.take(done));
                    }
                },
            }
            proof {
                assert(waiting@ =~= all.skip(done + 1));
                done = done + 1;
            }
        }
        proof {
            assert(all.take(done) =~= all);
        }
        compose(&frames, self.brightness)
    }

    /// Whether `reaction` and the state `after` are what the event `event`
    /// leads to from the state `before`.
    ///
    /// At the start the brightness is sent. A command that was found or waited
    /// for is taken in first, and a new brightness is sent. After a poll every
    /// animation is stepped: where frames come, their merge is drawn and the
    /// worker paces itself by its duration; where none comes, the display is
    /// reset with a blank frame and the worker waits for a command. After a
    /// wait the worker polls again, and stops where no sender is left.
    pub open spec fn reacts(
        before: Matrix,
        event: Event,
        after: Matrix,
        reaction: Reaction,
    ) -> bool {
        match event {
            Event::Started => {
                &&& after.brightness == before.brightness
                &&& after.animations@ == before.animations@
                &&& reaction.control == Some(Command::SetBrightness(before.brightness))
                &&& reaction.draw is None
                &&& reaction.next == Next::Poll
            },
            Event::Woken(None) => {
                &&& after.brightness == before.brightness
                &&& after.animations@ == before.animations@
                &&& reaction.control is None
                &&& reaction.draw is None
                &&& reaction.next == Next::Stop
            },
            Event::Woken(Some(command)) => {
                &&& Matrix::taken_in(before, command, after, reaction.control)
                &&& reaction.draw is None
                &&& reaction.next == Next::Poll
            },
            Event::Polled(command) => exists|middle: Matrix, frames: Seq<Frame>|
                {
                    &&& match command {
                        Some(command) => Matrix::taken_in(
                            before,
                            command,
                            middle,
                            reaction.control,
                        ),
                        None => {
                            &&& middle.brightness == before.brightness
                            &&& middle.animations@ == before.animations@
                            &&& reaction.control is None
                        },
                    }
                    &&& after.brightness == middle.brightness
                    &&& #[trigger] advanced(middle.animations@, after.animations@, frames)
                    &&& if frames.len() == 0 {
                        &&& reaction.draw == Some(reset())
                        &&& reaction.next == Next::Wait
                    } else {
                        &&& reaction.draw matches Some(frame)
                        &&& composed(frames, middle.brightness, frame)
                        &&& reaction.next == Next::Pace(frame.min_duration)
                    }
                },
        }
    }

    /// Whether the state `after` and the command `sent` to the device are what
    /// taking in `command` leads to from the state `before`.
    pub open spec fn taken_in(
        before: Matrix,
        command: DisplayCommand,
        after: Matrix,
        sent: Option<Command<'static>>,
    ) -> bool {
        match command {
            DisplayCommand::SetBrightness(brightness) => {
                &&& after.brightness == brightness
                &&& after.animations@ == before.animations@
                &&& sent == Some(Command::SetBrightness(brightness))
            },
            DisplayCommand::AddAnimation(animation) => {
                &&& after.brightness == before.brightness
                &&& after.animations@ == before.animations@.push(animation)
                &&& sent is None
            },
        }
    }

    /// Decides what the worker does after `event`.
    pub fn step(&mut self, event: Event) -> (reaction: Reaction)
        ensures
            Matrix::reacts(*old(self), event, *final(self), reaction),
    {
        match event {
            Event::Started => Reaction {
                control: Some(Command::SetBrightness(self.brightness)),
                draw: None,
                next: Next::Poll,
            },
            Event::Woken(None) => Reaction { control: None, draw: None, next: Next::Stop },
            Event::Woken(Some(command)) => {
                let control = self.process_command(command);
                Reaction { control, draw: None, next: Next::Poll }
            },
            Event::Polled(command) => {
                let control = match command {
                    Some(command) => self.process_command(command),
                    None => None,
                };
                match self.tick() {
                    Some(frame) => Reaction {
                        control,
                        draw: Some(frame),
                        next: Next::Pace(frame.min_duration),
                    },
                    None => Reaction {
                        control,
                        draw: Some(
                            Frame {
                                data: FrameData::Bw(BwFrame::new()),
                                min_duration: FrameDuration::zero(),
                                fullscreen: false,
                            },
                        ),
                        next: Next::Wait,
                    },
                }
            },
        }
    }
}

/// The frame that resets the display while nothing plays: blank, and without
/// a time to stay.
pub open spec fn reset() -> Frame {
    Frame {
        data: FrameData::Bw(BwFrame::unlit()),
        min_duration: FrameDuration { nanos: 0 },
        fullscreen: false,
    }
}

/// How long the worker sleeps after a drawing that took `elapsed`, so that the
/// frame stays for `min_duration` in all: what is left of it, and no time
/// where the drawing took longer.
pub fn pacing_sleep(min_duration: FrameDuration, elapsed: FrameDuration) -> (sleep: FrameDuration)
    ensures
        sleep == min_duration.remaining_after(elapsed),
{
    min_duration.saturating_sub(elapsed)
}

} // verus!
