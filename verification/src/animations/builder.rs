//! Builders that make a fresh animation on each request.

use crate::animations::file::{parsed, FileAnimation, ParseError};
use crate::animations::spread::{costs_of, seed, seeded};
use crate::animations::Animation;
use crate::config::{AnimationConfig, BuiltinAnimation, SpreadAnimation};
use vstd::prelude::*;

verus! {

/// What a builder makes its animations from.
pub enum Source {
    /// The settings of a diffusion.
    Spread(SpreadAnimation),
    /// The frames of a keyframe file.
    File(FileAnimation),
}

/// Makes animations of one kind. Each animation it makes has a state of its
/// own.
pub struct AnimationBuilder {
    pub source: Source,
}

impl AnimationBuilder {
    /// Whether `animation` is a fresh animation of this builder, with its
    /// rows moved down by `offset` or, where none is given, by the offset of
    /// its kind: zero for a diffusion, that of the file for a keyframe
    /// animation.
    pub open spec fn makes(&self, offset: Option<i8>, animation: Animation) -> bool {
        match self.source {
            Source::Spread(config) => {
                let rows = match offset {
                    Some(offset) => offset,
                    None => 0i8,
                };
                &&& animation matches Animation::Spread(spread)
                &&& seeded(config.seeds@, rows as int, config.seeds@.len() as int, spread)
                &&& spread.duration() == config.frame_duration
                &&& spread.costs() == costs_of(config)
            },
            Source::File(file) => {
                &&& animation matches Animation::File(player)
                &&& player.upcoming() == file.frames@
                &&& player.offset == match offset {
                    Some(offset) => offset,
                    None => file.default_offset,
                }
            },
        }
    }

    /// Sets up the builder of one animation of the settings. `file_text` is
    /// what the file of a keyframe animation holds. It is read at once, so
    /// that a file that cannot be read gives no builder; a diffusion does not
    /// look at it.
    pub fn new(config: AnimationConfig, file_text: &[u8]) -> (built: Result<Self, ParseError>)
        ensures
            match config {
                AnimationConfig::Builtin(BuiltinAnimation::Spread(spread)) => {
                    &&& built matches Ok(builder)
                    &&& builder.source == Source::Spread(spread)
                },
                AnimationConfig::File(_) => match parsed(file_text@) {
                    Err(error) => built matches Err(e) && e == error,
                    Ok(parsed) => {
                        &&& built matches Ok(builder)
                        &&& builder.source matches Source::File(file)
                        &&& file.holds(parsed)
                    },
                },
            },
    {
        match config {
            AnimationConfig::Builtin(BuiltinAnimation::Spread(spread)) => Ok(
                AnimationBuilder { source: Source::Spread(spread) },
            ),
            AnimationConfig::File(_) => match FileAnimation::from_bytes(file_text) {
                Err(error) => Err(error),
                Ok(file) => Ok(AnimationBuilder { source: Source::File(file) }),
            },
        }
    }

    /// Makes an animation at the offset of its kind.
    pub fn build(&self) -> (animation: Animation)
        ensures
            self.makes(None, animation),
    {
        match &self.source {
            Source::Spread(config) => Animation::Spread(seed(config, 0)),
            Source::File(file) => file.at(None),
        }
    }

    /// Makes an animation with its rows moved down by `offset`.
    pub fn at(&self, offset: i8) -> (animation: Animation)
        ensures
            self.makes(Some(offset), animation),
    {
        match &self.source {
            Source::Spread(config) => Animation::Spread(seed(config, offset)),
            Source::File(file) => file.at(Some(offset)),
        }
    }
}

} // verus!
