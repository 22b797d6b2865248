//! The diffusion animation: brightness spreads from seed cells to their
//! neighbours, generation by generation, and fades by a cost per step.

use crate::animations::{Animation, Frame, FrameData, FrameDuration, GrayFrame};
use crate::config::SpreadAnimation;
use crate::proto::in_grid;
use std::collections::HashMap;
use vstd::prelude::*;

verus! {

/// How a diagonal step is treated.
pub enum Diagonals {
    /// As a step along a row or a column.
    Yes,
    /// It is not taken.
    No,
    /// At a cost of its own.
    Costly(u16, u16),
}

/// What a step costs in brightness, by its direction.
#[derive(Clone, Copy, Debug, PartialEq, Eq)]
pub struct StepCosts {
    /// The cost of staying on a cell. No step of a generation stays, so
    /// nothing reads it.
    pub stay: u8,
    /// The cost of a step along a row.
    pub horiz: u8,
    /// The cost of a step along a column.
    pub vert: u8,
    /// The cost of a step that changes row and column.
    pub diag: u8,
}

impl StepCosts {
    /// The cost of a step by `dy` rows and `dx` columns.
    pub open spec fn of(self, dy: int, dx: int) -> u8 {
        if dy == 0 && dx == 0 {
            self.stay
        } else if dy == 0 {
            self.horiz
        } else if dx == 0 {
            self.vert
        } else {
            self.diag
        }
    }

    /// The cost of a step by `dy` rows and `dx` columns.
    pub fn cost(&self, dy: i8, dx: i8) -> (cost: u8)
        ensures
            cost == self.of(dy as int, dx as int),
    {
        if dy == 0 && dx == 0 {
            self.stay
        } else if dy == 0 {
            self.horiz
        } else if dx == 0 {
            self.vert
        } else {
            self.diag
        }
    }
}

/// The greater of two numbers.
pub open spec fn larger(a: int, b: int) -> int {
    if a >= b {
        a
    } else {
        b
    }
}

/// The state of a diffusion animation: the lit cells of the current
/// generation.
pub struct Spread {
    /// The brightness of each lit cell, by nine times its row plus its column.
    current_set: HashMap<u16, u8>,
    /// The map of the generation before, which the next one is built in.
    buffer: HashMap<u16, u8>,
    duration: FrameDuration,
    costs: StepCosts,
}

impl Spread {
    #[verifier::type_invariant]
    spec fn well_formed(self) -> bool {
        forall|key: u16| self.current_set@.contains_key(key) ==> key < 306
    }

    /// The brightness of the cell in row `y` and column `x`, where it is lit.
    pub closed spec fn cell(&self, y: int, x: int) -> Option<u8> {
        if in_grid(x, y) && self.current_set@.contains_key((y * 9 + x) as u16) {
            Some(self.current_set@[(y * 9 + x) as u16])
        } else {
            None
        }
    }

    /// How long each generation stays on the display.
    pub closed spec fn duration(&self) -> FrameDuration {
        self.duration
    }

    /// What a step costs.
    pub closed spec fn costs(&self) -> StepCosts {
        self.costs
    }

    /// Whether no cell is lit.
    pub open spec fn dark(&self) -> bool {
        forall|y: int, x: int| #[trigger] self.cell(y, x) is None
    }

    /// The brightness that reaches the cell `(y, x)` from its neighbour `dy`
    /// rows and `dx` columns away: what that neighbour has above the cost of
    /// the step, and nothing where it is unlit or not brighter than the cost.
    pub open spec fn handed(&self, y: int, x: int, dy: int, dx: int) -> int {
        match self.cell(y + dy, x + dx) {
            Some(level) => if level > self.costs().of(dy, dx) {
                level - self.costs().of(dy, dx)
            } else {
                0
            },
            None => 0,
        }
    }

    /// The most that reaches the cell `(y, x)` from its eight neighbours.
    pub open spec fn arriving(&self, y: int, x: int) -> int {
        larger(
            larger(
                larger(self.handed(y, x, -1, -1), self.handed(y, x, -1, 0)),
                larger(self.handed(y, x, -1, 1), self.handed(y, x, 0, -1)),
            ),
            larger(
                larger(self.handed(y, x, 0, 1), self.handed(y, x, 1, -1)),
                larger(self.handed(y, x, 1, 0), self.handed(y, x, 1, 1)),
            ),
        )
    }

    /// The cell `(y, x)` of the next generation: lit with what reaches it, and
    /// unlit where nothing does.
    pub open spec fn next_cell(&self, y: int, x: int) -> Option<u8> {
        if in_grid(x, y) && self.arriving(y, x) > 0 {
            Some(self.arriving(y, x) as u8)
        } else {
            None
        }
    }

    /// Whether `frame` shows the lit cells at their brightness, and everything
    /// else dark.
    pub open spec fn shown_by(&self, frame: GrayFrame) -> bool {
        forall|x: int, y: int|
            in_grid(x, y) ==> #[trigger] frame.level(x, y) == match self.cell(y, x) {
                Some(level) => level,
                None => 0u8,
            }
    }

    /// Whether `next` is the generation after this one, with the same
    /// settings.
    pub open spec fn followed_by(&self, next: Spread) -> bool {
        &&& next.duration() == self.duration()
        &&& next.costs() == self.costs()
        &&& forall|y: int, x: int| #[trigger] next.cell(y, x) == self.next_cell(y, x)
    }

    /// Whether `same` has the cells and the settings of this state.
    pub open spec fn same_as(&self, same: Spread) -> bool {
        &&& same.duration() == self.duration()
        &&& same.costs() == self.costs()
        &&& forall|y: int, x: int| #[trigger] same.cell(y, x) == self.cell(y, x)
    }

    /// A state without lit cells.
    pub fn new(duration: FrameDuration, costs: StepCosts) -> (spread: Self)
        ensures
            spread.dark(),
            spread.duration() == duration,
            spread.costs() == costs,
    {
        Spread {
            current_set: HashMap::with_capacity(306),
            buffer: HashMap::with_capacity(306),
            duration,
            costs,
        }
    }

    /// Lights the cell in row `y` and column `x`. A cell outside the grid is
    /// ignored.
    pub fn set(&mut self, y: u8, x: u8, brightness: u8)
        ensures
            final(self).duration() == old(self).duration(),
            final(self).costs() == old(self).costs(),
            forall|j: int, i: int| #[trigger]
                final(self).cell(j, i) == if j == y && i == x && in_grid(i, j) {
                    Some(brightness)
                } else {
                    old(self).cell(j, i)
                },
    {
        proof {
            use_type_invariant(&*self);
        }
        if y < 34 && x < 9 {
            let key: u16 = (y as u16) * 9 + (x as u16);
            let mut cells: HashMap<u16, u8> = HashMap::new();
            std::mem::swap(&mut self.current_set, &mut cells);
            cells.insert(key, brightness);
            std::mem::swap(&mut self.current_set, &mut cells);
            assert forall|j: int, i: int| #[trigger]
                self.cell(j, i) == if j == y && i == x {
                    Some(brightness)
                } else {
                    old(self).cell(j, i)
                } by {
                if in_grid(i, j) {
                    assert((j * 9 + i) as u16 == key <==> (j == y && i == x));
                }
            }
        }
    }

    /// Whether no cell is lit.
    pub fn is_empty(&self) -> (empty: bool)
        ensures
            empty == self.dark(),
    {
        proof {
            use_type_invariant(self);
        }
        let empty = self.current_set.is_empty();
        proof {
            if empty {
                assert forall|y: int, x: int| #[trigger] self.cell(y, x) is None by {}
            } else {
                let key = choose|key: u16| self.current_set@.contains_key(key);
                assert(self.current_set@.dom().contains(key));
                assert(key < 306);
                assert(in_grid(key as int % 9, key as int / 9));
                assert(self.cell(key as int / 9, key as int % 9) is Some);
            }
        }
        empty
    }

    /// The brightness of one cell, where it is lit.
    pub fn get(&self, y: u8, x: u8) -> (level: Option<u8>)
        ensures
            level == self.cell(y as int, x as int),
    {
        if y < 34 && x < 9 {
            let key: u16 = (y as u16) * 9 + (x as u16);
            match self.current_set.get(&key) {
                Some(level) => Some(*level),
                None => None,
            }
        } else {
            None
        }
    }

    /// The picture of the current generation.
    pub fn to_frame(&self) -> (frame: GrayFrame)
        ensures
            self.shown_by(frame),
    {
        let mut frame = GrayFrame::zeroed();
        let mut y: u8 = 0;
        while y < 34
            invariant
                y <= 34,
                forall|i: int, j: int|
                    in_grid(i, j) ==> frame.0[i][j] == match self.cell(j, i) {
                        Some(level) if j < y => level,
                        _ => 0u8,
                    },
            decreases 34 - y,
        {
            let mut x: u8 = 0;
            while x < 9
                invariant
                    x <= 9,
                    y < 34,
                    forall|i: int, j: int|
                        in_grid(i, j) ==> frame.0[i][j] == match self.cell(j, i) {
                            Some(level) if j < y || (j == y && i < x) => level,
                            _ => 0u8,
                        },
                decreases 9 - x,
            {
                match self.get(y, x) {
                    Some(level) => {
                        frame.0[x as usize][y as usize] = level;
                    },
                    None => {},
                }
                x += 1;
            }
            y += 1;
        }
        frame
    }

    /// Two states with the same lit cells and costs have the same next
    /// generation.
    proof fn lemma_cells_decide(a: Spread, b: Spread, y: int, x: int)
        requires
            a.current_set@ == b.current_set@,
            a.costs == b.costs,
        ensures
            a.next_cell(y, x) == b.next_cell(y, x),
    {
        assert(forall|j: int, i: int| #[trigger] a.cell(j, i) == b.cell(j, i));
        assert(a.handed(y, x, -1, -1) == b.handed(y, x, -1, -1));
        assert(a.handed(y, x, -1, 0) == b.handed(y, x, -1, 0));
        assert(a.handed(y, x, -1, 1) == b.handed(y, x, -1, 1));
        assert(a.handed(y, x, 0, -1) == b.handed(y, x, 0, -1));
        assert(a.handed(y, x, 0, 1) == b.handed(y, x, 0, 1));
        assert(a.handed(y, x, 1, -1) == b.handed(y, x, 1, -1));
        assert(a.handed(y, x, 1, 0) == b.handed(y, x, 1, 0));
        assert(a.handed(y, x, 1, 1) == b.handed(y, x, 1, 1));
    }

    /// The brightness that reaches the cell `(y, x)` from one neighbour.
    fn handed_from(&self, y: u8, x: u8, dy: i8, dx: i8) -> (level: u8)
        requires
            in_grid(x as int, y as int),
            -1 <= dy <= 1,
            -1 <= dx <= 1,
        ensures
            level == self.handed(y as int, x as int, dy as int, dx as int),
    {
        let ny: i16 = y as i16 + dy as i16;
        let nx: i16 = x as i16 + dx as i16;
        if ny < 0 || ny >= 34 || nx < 0 || nx >= 9 {
            return 0;
        }
        match self.get(ny as u8, nx as u8) {
            Some(level) => {
                let cost = self.costs.cost(dy, dx);
                if level > cost {
                    level - cost
                } else {
                    0
                }
            },
            None => 0,
        }
    }

    /// The most that reaches the cell `(y, x)` from its eight neighbours.
    fn arriving_at(&self, y: u8, x: u8) -> (level: u8)
        requires
            in_grid(x as int, y as int),
        ensures
            level == self.arriving(y as int, x as int),
    {
        let a = brighter(self.handed_from(y, x, -1, -1), self.handed_from(y, x, -1, 0));
        let b = brighter(self.handed_from(y, x, -1, 1), self.handed_from(y, x, 0, -1));
        let c = brighter(self.handed_from(y, x, 0, 1), self.handed_from(y, x, 1, -1));
        let d = brighter(self.handed_from(y, x, 1, 0), self.handed_from(y, x, 1, 1));
        brighter(brighter(a, b), brighter(c, d))
    }

    /// Yields the picture of the current generation and moves on to the next
    /// one. Once no cell is lit the animation is over: nothing is yielded and
    /// nothing changes.
    pub fn next(&mut self) -> (frame: Option<Frame>)
        ensures
            match frame {
                None => old(self).dark() && old(self).same_as(*final(self)),
                Some(frame) => {
                    &&& !old(self).dark()
                    &&& !frame.fullscreen
                    &&& frame.min_duration == old(self).duration()
                    &&& frame.data matches FrameData::Gray(picture)
                    &&& old(self).shown_by(picture)
                    &&& old(self).followed_by(*final(self))
                },
            },
    {
        if self.is_empty() {
            return None;
        }
        let frame = Frame {
            data: FrameData::Gray(self.to_frame()),
            min_duration: self.duration,
            fullscreen: false,
        };
        proof {
            use_type_invariant(&*self);
        }
        let mut next: HashMap<u16, u8> = HashMap::new();
        std::mem::swap(&mut self.buffer, &mut next);
        next.clear();
        let mut y: u8 = 0;
        while y < 34
            invariant
                y <= 34,
                self.current_set@ == old(self).current_set@,
                self.duration == old(self).duration,
                self.costs == old(self).costs,
                forall|key: u16| next@.contains_key(key) ==> key < y * 9,
                forall|j: int, i: int|
                    in_grid(i, j) && j < y ==> match #[trigger] self.next_cell(j, i) {
                        Some(level) => next@.contains_key((j * 9 + i) as u16) && next@[(j * 9
                            + i) as u16] == level,
                        None => !next@.contains_key((j * 9 + i) as u16),
                    },
            decreases 34 - y,
        {
            let mut x: u8 = 0;
            while x < 9
                invariant
                    x <= 9,
                    y < 34,
                    self.current_set@ == old(self).current_set@,
                self.duration == old(self).duration,
                self.costs == old(self).costs,
                    forall|key: u16| next@.contains_key(key) ==> key < y * 9 + x,
                    forall|j: int, i: int|
                        in_grid(i, j) && (j < y || (j == y && i < x))
                            ==> match #[trigger] self.next_cell(j, i) {
                            Some(level) => next@.contains_key((j * 9 + i) as u16) && next@[(j * 9
                                + i) as u16] == level,
                            None => !next@.contains_key((j * 9 + i) as u16),
                        },
                decreases 9 - x,
            {
                let level = self.arriving_at(y, x);
                if level > 0 {
                    next.insert((y as u16) * 9 + (x as u16), level);
                }
                x += 1;
            }
            y += 1;
        }
        let ghost before = *self;
        std::mem::swap(&mut self.current_set, &mut next);
        std::mem::swap(&mut self.buffer, &mut next);
        proof {
            assert forall|j: int, i: int| #[trigger]
                self.cell(j, i) == old(self).next_cell(j, i) by {
                Spread::lemma_cells_decide(before, *old(self), j, i);
                if in_grid(i, j) {
                    assert(before.next_cell(j, i) is Some || before.next_cell(j, i) is None);
                } else {
                    assert(before.next_cell(j, i) is None);
                }
            }
        }
        Some(frame)
    }
}

/// The greater of two brightness values.
fn brighter(a: u8, b: u8) -> (level: u8)
    ensures
        level == larger(a as int, b as int),
{
    if a >= b {
        a
    } else {
        b
    }
}

/// Starts a diffusion animation from the seeds of `config`, each moved down by
/// `offset` rows. A seed whose row or column is then outside the grid is left
/// out. Of two seeds on one cell the later one counts.
pub fn from_config_at(config: SpreadAnimation, offset: i8) -> (animation: Animation)
    ensures
        animation matches Animation::Spread(spread),
        seeded(config.seeds@, offset as int, config.seeds@.len() as int, animation->Spread_0),
        animation->Spread_0.duration() == config.frame_duration,
        animation->Spread_0.costs() == costs_of(config),
{
    Animation::Spread(seed(&config, offset))
}

/// The step costs that `config` names.
pub open spec fn costs_of(config: SpreadAnimation) -> StepCosts {
    StepCosts {
        stay: config.stay_cost,
        horiz: config.horiz_cost,
        vert: config.vert_cost,
        diag: config.diag_cost,
    }
}

/// The brightness that the first `count` seeds give the cell `(y, x)` once
/// their rows are moved by `offset`: that of the last of them that lands on
/// the cell.
pub open spec fn seed_level(seeds: Seq<[u8; 3]>, offset: int, count: int, y: int, x: int) -> Option<
    u8,
>
    decreases count,
{
    if count <= 0 {
        None
    } else {
        let seed = seeds[count - 1];
        if in_grid(x, y) && seed[0] == x && seed[1] + offset == y {
            Some(seed[2])
        } else {
            seed_level(seeds, offset, count - 1, y, x)
        }
    }
}

/// Whether the lit cells of `spread` are those that the first `count` seeds
/// give.
pub open spec fn seeded(seeds: Seq<[u8; 3]>, offset: int, count: int, spread: Spread) -> bool {
    forall|y: int, x: int| #[trigger] spread.cell(y, x) == seed_level(seeds, offset, count, y, x)
}

/// Starts a diffusion animation from the seeds of `config`.
pub fn seed(config: &SpreadAnimation, offset: i8) -> (spread: Spread)
    ensures
        seeded(config.seeds@, offset as int, config.seeds@.len() as int, spread),
        spread.duration() == config.frame_duration,
        spread.costs() == costs_of(*config),
{
    let costs = StepCosts {
        stay: config.stay_cost,
        horiz: config.horiz_cost,
        vert: config.vert_cost,
        diag: config.diag_cost,
    };
    let mut result = Spread::new(config.frame_duration, costs);
    let mut idx: usize = 0;
    while idx < config.seeds.len()
        invariant
            idx <= config.seeds@.len(),
            seeded(config.seeds@, offset as int, idx as int, result),
            result.duration() == config.frame_duration,
            result.costs() == costs,
        decreases config.seeds@.len() - idx,
    {
        let seed = &config.seeds[idx];
        let row: i16 = seed[1] as i16 + offset as i16;
        if 0 <= row && row < 34 {
            result.set(row as u8, seed[0], seed[2]);
        }
        idx += 1;
    }
    result
}

} // verus!
