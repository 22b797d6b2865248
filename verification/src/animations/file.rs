//! Animations that are written down frame by frame in a text file.
//!
//! A file starts with a header of options in TOML, closed by a line that holds
//! `---`. Frames follow, parted by blank lines. Lines that start with `{`
//! before a frame set options for that frame alone. A frame is up to 34 rows of
//! nine pixels: either `.` and `#` for off and on, or two hexadecimal digits
//! per pixel, parted by white space.

use crate::animations::settings::{
    header_options,
    line_options,
    read_header,
    read_option_line,
};
use crate::animations::text::{
    content_end,
    content_start,
    find_line_end,
    count_newlines,
    gap,
    hex_pair,
    lemma_line_end,
    line_after,
    line_end,
    marks,
    newlines,
    read_hex_pair,
    split_tokens,
    tokens,
    trim,
};
use crate::animations::{Animation, Frame, FrameData, FrameDuration, GrayFrame, IsFrame};
use crate::proto::{in_grid, BwFrame};
use itertools::Itertools;
use vstd::prelude::*;
use vstd::slice::slice_subrange;
use vstd::string::StringSliceAdditionalSpecFns;

verus! {

/// Why a keyframe file was not read. Lines count from one, from the start of
/// the file.
#[derive(Clone, Copy, Debug, PartialEq, Eq)]
pub enum ParseError {
    /// No line of the file closes the header.
    MissingSeparator,
    /// The header is no TOML or sets an option to a value of the wrong kind.
    BadHeader { line: usize },
    /// An option line is no TOML table or sets an option to a value of the
    /// wrong kind.
    BadOptions { line: usize },
    /// A frame has more than 34 rows.
    TooManyLines { line: usize },
    /// A row does not hold nine pixels.
    WrongLineLength { line: usize },
    /// A pixel is written with something else than `.`, `#` or two
    /// hexadecimal digits.
    WrongPixel { line: usize },
}

/// What is wrong with a row.
#[derive(Clone, Copy, Debug, PartialEq, Eq)]
pub enum RowFault {
    Length,
    Pixel,
}

/// The options in the header of a keyframe file.
#[derive(Clone, Copy, Debug, PartialEq, Eq)]
pub struct FileOptions {
    /// The rows by which the frames are moved down where the caller names no
    /// offset.
    pub default_offset: i8,
    pub min_duration: FrameDuration,
    pub fullscreen: bool,
}

/// The options that a line before a frame sets for that frame.
#[derive(Clone, Copy, Debug, PartialEq, Eq)]
pub struct FrameOptions {
    /// How many times the frame is shown in a row.
    pub repeat: Option<usize>,
    pub fullscreen: Option<bool>,
    pub min_duration: Option<FrameDuration>,
}

impl FileOptions {
    /// The options that every frame of the file starts from.
    pub open spec fn frame_defaults(self) -> FrameOptions {
        FrameOptions {
            repeat: None,
            fullscreen: Some(self.fullscreen),
            min_duration: Some(self.min_duration),
        }
    }
}

impl FrameOptions {
    /// These options with each one replaced that `other` sets.
    pub open spec fn overridden_by(self, other: FrameOptions) -> FrameOptions {
        FrameOptions {
            repeat: if other.repeat is Some {
                other.repeat
            } else {
                self.repeat
            },
            fullscreen: if other.fullscreen is Some {
                other.fullscreen
            } else {
                self.fullscreen
            },
            min_duration: if other.min_duration is Some {
                other.min_duration
            } else {
                self.min_duration
            },
        }
    }

    /// How many times the frame is shown: once where nothing is set.
    pub open spec fn count(self) -> usize {
        match self.repeat {
            Some(count) => count,
            None => 1,
        }
    }

    /// How long the frame stays: no time where nothing is set.
    pub open spec fn span(self) -> FrameDuration {
        match self.min_duration {
            Some(span) => span,
            None => FrameDuration { nanos: 0 },
        }
    }

    /// Whether the frame is fullscreen: not where nothing is set.
    pub open spec fn whole(self) -> bool {
        match self.fullscreen {
            Some(whole) => whole,
            None => false,
        }
    }

    /// Takes over each option that `other` sets.
    pub fn merge_with(&mut self, other: &FrameOptions)
        ensures
            *final(self) == old(self).overridden_by(*other),
    {
        if other.repeat.is_some() {
            self.repeat = other.repeat;
        }
        if other.fullscreen.is_some() {
            self.fullscreen = other.fullscreen;
        }
        if other.min_duration.is_some() {
            self.min_duration = other.min_duration;
        }
    }

    /// The frame that shows `frame` under these options.
    pub fn make_bw(self, frame: BwFrame) -> (made: Frame)
        ensures
            made == (Frame {
                data: FrameData::Bw(frame),
                min_duration: self.span(),
                fullscreen: self.whole(),
            }),
    {
        Frame {
            data: FrameData::Bw(frame),
            min_duration: match self.min_duration {
                Some(span) => span,
                None => FrameDuration::zero(),
            },
            fullscreen: match self.fullscreen {
                Some(whole) => whole,
                None => false,
            },
        }
    }

    /// The frame that shows `frame` under these options.
    pub fn make_gray(self, frame: GrayFrame) -> (made: Frame)
        ensures
            made == (Frame {
                data: FrameData::Gray(frame),
                min_duration: self.span(),
                fullscreen: self.whole(),
            }),
    {
        Frame {
            data: FrameData::Gray(frame),
            min_duration: match self.min_duration {
                Some(span) => span,
                None => FrameDuration::zero(),
            },
            fullscreen: match self.fullscreen {
                Some(whole) => whole,
                None => false,
            },
        }
    }
}

/// The character `.`, which writes a pixel that is off.
pub const DOT: u8 = 0x2e;

/// The character `#`, which writes a pixel that is on.
pub const HASH: u8 = 0x23;

/// The character `{`, with which an option line starts.
pub const BRACE: u8 = 0x7b;

/// The rows of a frame as the file writes them, from the top.
pub enum Picture {
    Bw(Seq<Seq<bool>>),
    Gray(Seq<Seq<u8>>),
}

/// A frame as the file writes it.
pub struct Sketch {
    pub picture: Picture,
    pub min_duration: FrameDuration,
    pub fullscreen: bool,
}

/// Whether `frame` shows `rows` from its top row down, and nothing below.
pub open spec fn shows_bw(frame: BwFrame, rows: Seq<Seq<bool>>) -> bool {
    &&& frame.tidy()
    &&& forall|x: int, y: int|
        in_grid(x, y) ==> #[trigger] frame.pixel(x, y) == (y < rows.len() && rows[y][x])
}

/// Whether `frame` shows `rows` from its top row down, and nothing below.
pub open spec fn shows_gray(frame: GrayFrame, rows: Seq<Seq<u8>>) -> bool {
    forall|x: int, y: int|
        in_grid(x, y) ==> #[trigger] frame.level(x, y) == if y < rows.len() {
            rows[y][x]
        } else {
            0u8
        }
}

/// Whether `frame` is the frame that `sketch` describes.
pub open spec fn drawn(frame: Frame, sketch: Sketch) -> bool {
    &&& frame.min_duration == sketch.min_duration
    &&& frame.fullscreen == sketch.fullscreen
    &&& match sketch.picture {
        Picture::Bw(rows) => frame.data matches FrameData::Bw(bw) && shows_bw(bw, rows),
        Picture::Gray(rows) => frame.data matches FrameData::Gray(gray) && shows_gray(gray, rows),
    }
}

/// Whether `frames` are the frames that `sketches` describe, one for one.
pub open spec fn all_drawn(frames: Seq<Frame>, sketches: Seq<Sketch>) -> bool {
    &&& frames.len() == sketches.len()
    &&& forall|i: int| 0 <= i < frames.len() ==> drawn(#[trigger] frames[i], sketches[i])
}

/// The pixels that the row `s[lo..hi]` writes with `.` and `#`: the row has to
/// hold nine bytes beside its gaps, and none but these two.
pub open spec fn bw_row(s: Seq<u8>, lo: int, hi: int) -> Result<Seq<bool>, RowFault> {
    let cells = marks(s, lo, hi);
    if cells.len() != 9 {
        Err(RowFault::Length)
    } else if forall|x: int| 0 <= x < 9 ==> cells[x] == DOT || cells[x] == HASH {
        Ok(Seq::new(9, |x: int| cells[x] == HASH))
    } else {
        Err(RowFault::Pixel)
    }
}

/// The pixels that the row `s[lo..hi]` writes in hexadecimal: the row has to
/// hold nine tokens, each of two digits.
pub open spec fn gray_row(s: Seq<u8>, lo: int, hi: int) -> Result<Seq<u8>, RowFault> {
    let cells = tokens(s, lo, hi);
    if cells.len() != 9 {
        Err(RowFault::Length)
    } else if forall|x: int|
        0 <= x < 9 ==> hex_pair(s, cells[x].0 as int, cells[x].1 as int) is Some {
        Ok(Seq::new(9, |x: int| hex_pair(s, cells[x].0 as int, cells[x].1 as int)->0))
    } else {
        Err(RowFault::Pixel)
    }
}

/// The error that a fault in the row on line `line` gives.
pub open spec fn row_error(fault: RowFault, line: int) -> ParseError {
    match fault {
        RowFault::Length => ParseError::WrongLineLength { line: line as usize },
        RowFault::Pixel => ParseError::WrongPixel { line: line as usize },
    }
}

/// Where the reading of a frame stopped, and what it read.
pub struct Body<R> {
    pub rows: Seq<R>,
    /// The start of the line after the frame.
    pub pos: int,
    /// The number of that line.
    pub line: int,
}

/// The rows of the monochrome frame that starts with the line at `pos`, which
/// is line `line`, after the rows `rows` that were read before. The frame ends
/// with a blank line, which belongs to it, or with the text. After 34 rows it
/// is full: a line that starts with `{` may follow and is left for the next
/// frame, any other line that is not blank is one row too many.
pub open spec fn bw_body(s: Seq<u8>, pos: int, line: int, rows: Seq<Seq<bool>>) -> Result<
    Body<Seq<bool>>,
    ParseError,
>
    decreases s.len() - pos,
{
    if pos < 0 || pos >= s.len() {
        Ok(Body { rows, pos, line })
    } else {
        let end = line_end(s, pos);
        let start = content_start(s, pos, end);
        if start == end {
            Ok(Body { rows, pos: line_after(s, pos), line: line + 1 })
        } else if rows.len() >= 34 {
            if s[start] == BRACE {
                Ok(Body { rows, pos, line })
            } else {
                Err(ParseError::TooManyLines { line: line as usize })
            }
        } else {
            match bw_row(s, start, content_end(s, start, end)) {
                Err(fault) => Err(row_error(fault, line)),
                Ok(row) => {
                    proof {
                        lemma_line_end(s, pos);
                    }
                    bw_body(s, line_after(s, pos), line + 1, rows.push(row))
                },
            }
        }
    }
}

/// The rows of the grayscale frame that starts with the line at `pos`, as
/// `bw_body` gives those of a monochrome one.
pub open spec fn gray_body(s: Seq<u8>, pos: int, line: int, rows: Seq<Seq<u8>>) -> Result<
    Body<Seq<u8>>,
    ParseError,
>
    decreases s.len() - pos,
{
    if pos < 0 || pos >= s.len() {
        Ok(Body { rows, pos, line })
    } else {
        let end = line_end(s, pos);
        let start = content_start(s, pos, end);
        if start == end {
            Ok(Body { rows, pos: line_after(s, pos), line: line + 1 })
        } else if rows.len() >= 34 {
            if s[start] == BRACE {
                Ok(Body { rows, pos, line })
            } else {
                Err(ParseError::TooManyLines { line: line as usize })
            }
        } else {
            match gray_row(s, start, content_end(s, start, end)) {
                Err(fault) => Err(row_error(fault, line)),
                Ok(row) => {
                    proof {
                        lemma_line_end(s, pos);
                    }
                    gray_body(s, line_after(s, pos), line + 1, rows.push(row))
                },
            }
        }
    }
}

/// One frame of the file, and where the text goes on after it.
pub struct Step {
    pub sketch: Sketch,
    /// How many times the frame is shown.
    pub count: usize,
    pub pos: int,
    pub line: int,
}

/// The next frame from the line at `pos` on, which is line `line`, under the
/// options `options`. Blank lines before it are passed over, and each line
/// that starts with `{` sets options for it. A first row that starts with `.`
/// or `#` makes the frame monochrome, any other grayscale. There is no frame
/// where the text ends before one starts.
pub open spec fn frame_at(s: Seq<u8>, pos: int, line: int, options: FrameOptions) -> Result<
    Option<Step>,
    ParseError,
>
    decreases s.len() - pos,
{
    if pos < 0 || pos >= s.len() {
        Ok(None)
    } else {
        let end = line_end(s, pos);
        let start = content_start(s, pos, end);
        let stop = content_end(s, start, end);
        if start == end {
            proof {
                lemma_line_end(s, pos);
            }
            frame_at(s, line_after(s, pos), line + 1, options)
        } else if s[start] == BRACE {
            match line_options(s.subrange(start, stop)) {
                None => Err(ParseError::BadOptions { line: line as usize }),
                Some(set) => {
                    proof {
                        lemma_line_end(s, pos);
                    }
                    frame_at(s, line_after(s, pos), line + 1, options.overridden_by(set))
                },
            }
        } else if s[start] == DOT || s[start] == HASH {
            match bw_body(s, pos, line, Seq::empty()) {
                Err(error) => Err(error),
                Ok(body) => Ok(
                    Some(
                        Step {
                            sketch: Sketch {
                                picture: Picture::Bw(body.rows),
                                min_duration: options.span(),
                                fullscreen: options.whole(),
                            },
                            count: options.count(),
                            pos: body.pos,
                            line: body.line,
                        },
                    ),
                ),
            }
        } else {
            match gray_body(s, pos, line, Seq::empty()) {
                Err(error) => Err(error),
                Ok(body) => Ok(
                    Some(
                        Step {
                            sketch: Sketch {
                                picture: Picture::Gray(body.rows),
                                min_duration: options.span(),
                                fullscreen: options.whole(),
                            },
                            count: options.count(),
                            pos: body.pos,
                            line: body.line,
                        },
                    ),
                ),
            }
        }
    }
}

/// `count` times the same frame.
pub open spec fn repeated(sketch: Sketch, count: usize) -> Seq<Sketch> {
    Seq::new(count as nat, |i: int| sketch)
}

/// The frames of the text from the line at `pos` on, after the frames `done`:
/// each frame as often as its options say, each starting from the options
/// `defaults`.
pub open spec fn frames_from(
    s: Seq<u8>,
    pos: int,
    line: int,
    defaults: FrameOptions,
    done: Seq<Sketch>,
) -> Result<Seq<Sketch>, ParseError>
    decreases s.len() - pos,
{
    match frame_at(s, pos, line, defaults) {
        Err(error) => Err(error),
        Ok(None) => Ok(done),
        Ok(Some(step)) => {
            if pos < step.pos <= s.len() {
                frames_from(
                    s,
                    step.pos,
                    step.line,
                    defaults,
                    done + repeated(step.sketch, step.count),
                )
            } else {
                Ok(done)
            }
        },
    }
}

/// Whether the five bytes from `at` on are a line feed, `---` and a line feed.
pub open spec fn separator_at(s: Seq<u8>, at: int) -> bool {
    &&& 0 <= at
    &&& at + 5 <= s.len()
    &&& s[at] == 0x0a
    &&& s[at + 1] == 0x2d
    &&& s[at + 2] == 0x2d
    &&& s[at + 3] == 0x2d
    &&& s[at + 4] == 0x0a
}

/// The first place from `from` on where the header ends.
pub open spec fn first_separator(s: Seq<u8>, from: int) -> Option<int>
    decreases s.len() - from,
{
    if from < 0 || from + 5 > s.len() {
        None
    } else if separator_at(s, from) {
        Some(from)
    } else {
        first_separator(s, from + 1)
    }
}

/// The number of the line that holds the byte at `at`, or the last line where
/// `at` is past the text.
pub open spec fn line_of(s: Seq<u8>, at: int) -> int {
    if at <= s.len() {
        1 + newlines(s, 0, at)
    } else {
        1 + newlines(s, 0, s.len() as int)
    }
}

/// What a keyframe file holds.
pub struct Parsed {
    pub sketches: Seq<Sketch>,
    pub default_offset: i8,
}

/// What the file `s` holds. Its header is all before the first line that
/// holds `---` alone after a line feed; the frames follow that line.
pub open spec fn parsed(s: Seq<u8>) -> Result<Parsed, ParseError> {
    match first_separator(s, 0) {
        None => Err(ParseError::MissingSeparator),
        Some(close) => match header_options(s.subrange(0, close)) {
            Err(at) => Err(
                ParseError::BadHeader { line: line_of(s.subrange(0, close), at as int) as usize },
            ),
            Ok(options) => match frames_from(
                s,
                close + 5,
                newlines(s, 0, close) + 3,
                options.frame_defaults(),
                Seq::empty(),
            ) {
                Err(error) => Err(error),
                Ok(sketches) => Ok(Parsed { sketches, default_offset: options.default_offset }),
            },
        },
    }
}

/// `Itertools::collect_array` with nine places: the items in their order where
/// there are nine of them, and nothing where there are fewer or more.
#[verifier::external_body]
fn collect_nine<T>(items: Vec<T>) -> (cells: Option<[T; 9]>)
    ensures
        cells is Some <==> items@.len() == 9,
        cells matches Some(array) ==> array@ == items@,
{
    items.into_iter().collect_array::<9>()
}

/// Reads a row of `.` and `#`.
pub fn read_bw_row(s: &[u8], lo: usize, hi: usize) -> (row: Result<[bool; 9], RowFault>)
    requires
        lo <= hi <= s@.len(),
    ensures
        match row {
            Ok(row) => bw_row(s@, lo as int, hi as int) == Ok::<Seq<bool>, RowFault>(row@),
            Err(fault) => bw_row(s@, lo as int, hi as int) == Err::<Seq<bool>, RowFault>(fault),
        },
{
    let mut found: Vec<u8> = Vec::new();
    let mut at = lo;
    while at < hi
        invariant
            lo <= at <= hi <= s@.len(),
            marks(s@, lo as int, hi as int) == found@ + marks(s@, at as int, hi as int),
        decreases hi - at,
    {
        if !gap(s[at]) {
            let ghost before = found@;
            found.push(s[at]);
            assert(found@ + marks(s@, at + 1, hi as int) == before + (seq![s@[at as int]] + marks(
                s@,
                at + 1,
                hi as int,
            )));
        }
        at += 1;
    }
    assert(marks(s@, lo as int, hi as int) == found@);
    match collect_nine(found) {
        None => Err(RowFault::Length),
        Some(cells) => {
            let mut row = [false;9];
            let mut x: usize = 0;
            while x < 9
                invariant
                    x <= 9,
                    cells@ == marks(s@, lo as int, hi as int),
                    cells@.len() == 9,
                    forall|i: int| 0 <= i < x ==> cells@[i] == DOT || cells@[i] == HASH,
                    forall|i: int| 0 <= i < x ==> row@[i] == (cells@[i] == HASH),
                decreases 9 - x,
            {
                if cells[x] == HASH {
                    row[x] = true;
                } else if cells[x] == DOT {
                    row[x] = false;
                } else {
                    assert(!(cells@[x as int] == DOT || cells@[x as int] == HASH));
                    return Err(RowFault::Pixel);
                }
                x += 1;
            }
            assert(row@ =~= Seq::new(9, |x: int| cells@[x] == HASH));
            Ok(row)
        },
    }
}

/// Reads a row of nine numbers of two hexadecimal digits.
pub fn read_gray_row(s: &[u8], lo: usize, hi: usize) -> (row: Result<[u8; 9], RowFault>)
    requires
        lo <= hi <= s@.len(),
    ensures
        match row {
            Ok(row) => gray_row(s@, lo as int, hi as int) == Ok::<Seq<u8>, RowFault>(row@),
            Err(fault) => gray_row(s@, lo as int, hi as int) == Err::<Seq<u8>, RowFault>(fault),
        },
{
    let found = split_tokens(s, lo, hi);
    match collect_nine(found) {
        None => Err(RowFault::Length),
        Some(cells) => {
            let mut row = [0u8;9];
            let mut x: usize = 0;
            while x < 9
                invariant
                    x <= 9,
                    hi <= s@.len(),
                    cells@ == tokens(s@, lo as int, hi as int),
                    cells@.len() == 9,
                    forall|i: int| 0 <= i < 9 ==> (#[trigger] cells@[i]).0 <= cells@[i].1 <= hi,
                    forall|i: int|
                        #![trigger cells@[i]]
                        #![trigger row@[i]]
                        0 <= i < x ==> hex_pair(s@, cells@[i].0 as int, cells@[i].1 as int) == Some(
                            row@[i],
                        ),
                decreases 9 - x,
            {
                match read_hex_pair(s, cells[x].0, cells[x].1) {
                    Some(level) => {
                        row[x] = level;
                    },
                    None => {
                        assert(hex_pair(s@, cells@[x as int].0 as int, cells@[x as int].1 as int)
                            is None);
                        return Err(RowFault::Pixel);
                    },
                }
                x += 1;
            }
            assert(row@ =~= Seq::new(
                9,
                |x: int| hex_pair(s@, cells@[x].0 as int, cells@[x].1 as int)->0,
            ));
            Ok(row)
        },
    }
}

/// A place in the text: the start of a line and the number of that line.
#[derive(Clone, Copy, Debug, PartialEq, Eq)]
pub struct Cursor {
    pub pos: usize,
    pub line: usize,
}

/// Reads the monochrome frame that starts with the line at `pos`, which is
/// line `line`.
pub fn parse_bw(s: &[u8], pos: usize, line: usize, options: FrameOptions) -> (read: Result<
    (Frame, Cursor),
    ParseError,
>)
    requires
        pos <= s@.len(),
        line + (s@.len() - pos) <= usize::MAX,
    ensures
        match bw_body(s@, pos as int, line as int, Seq::empty()) {
            Err(error) => read == Err::<(Frame, Cursor), ParseError>(error),
            Ok(body) => {
                &&& read matches Ok((frame, cursor))
                &&& cursor.pos == body.pos
                &&& cursor.line == body.line
                &&& pos <= cursor.pos <= s@.len()
                &&& pos < s@.len() ==> pos < cursor.pos
                &&& cursor.line + (s@.len() - cursor.pos) <= usize::MAX
                &&& drawn(
                    frame,
                    Sketch {
                        picture: Picture::Bw(body.rows),
                        min_duration: options.span(),
                        fullscreen: options.whole(),
                    },
                )
            },
        },
{
    let mut frame = BwFrame::new();
    let mut at = pos;
    let mut n = line;
    let mut y: u8 = 0;
    let ghost mut rows: Seq<Seq<bool>> = Seq::empty();
    loop
        invariant
            pos <= at <= s@.len(),
            n + (s@.len() - at) <= usize::MAX,
            at == pos || pos < at,
            y > 0 ==> pos < at,
            y == rows.len(),
            y <= 34,
            forall|j: int| 0 <= j < rows.len() ==> (#[trigger] rows[j]).len() == 9,
            shows_bw(frame, rows),
            bw_body(s@, pos as int, line as int, Seq::empty()) == bw_body(
                s@,
                at as int,
                n as int,
                rows,
            ),
        decreases s@.len() - at,
    {
        if at >= s.len() {
            return Ok((options.make_bw(frame), Cursor { pos: at, line: n }));
        }
        let end = find_line_end(s, at);
        let (start, stop) = trim(s, at, end);
        let next = if end < s.len() {
            end + 1
        } else {
            end
        };
        if start == end {
            return Ok((options.make_bw(frame), Cursor { pos: next, line: n + 1 }));
        }
        if y >= 34 {
            if s[start] == BRACE {
                return Ok((options.make_bw(frame), Cursor { pos: at, line: n }));
            }
            return Err(ParseError::TooManyLines { line: n });
        }
        match read_bw_row(s, start, stop) {
            Err(fault) => {
                return Err(
                    match fault {
                        RowFault::Length => ParseError::WrongLineLength { line: n },
                        RowFault::Pixel => ParseError::WrongPixel { line: n },
                    },
                );
            },
            Ok(row) => {
                let ghost before = frame;
                let mut x: u8 = 0;
                while x < 9
                    invariant
                        x <= 9,
                        y < 34,
                        frame.tidy(),
                        forall|i: int, j: int|
                            in_grid(i, j) ==> #[trigger] frame.pixel_at(i, j) == if j == y && i
                                < x {
                                row@[i]
                            } else {
                                before.pixel_at(i, j)
                            },
                    decreases 9 - x,
                {
                    frame.set(x, y, row[x as usize]);
                    x += 1;
                }
                proof {
                    let longer = rows.push(row@);
                    assert forall|i: int, j: int| in_grid(i, j) implies #[trigger] frame.pixel(i, j)
                        == (j < longer.len() && longer[j][i]) by {
                        assert(frame.pixel_at(i, j) == frame.pixel(i, j));
                        assert(before.pixel_at(i, j) == before.pixel(i, j));
                    }
                    rows = longer;
                }
            },
        }
        at = next;
        n += 1;
        y += 1;
    }
}

/// Reads the grayscale frame that starts with the line at `pos`, which is line
/// `line`.
pub fn parse_gray(s: &[u8], pos: usize, line: usize, options: FrameOptions) -> (read: Result<
    (Frame, Cursor),
    ParseError,
>)
    requires
        pos <= s@.len(),
        line + (s@.len() - pos) <= usize::MAX,
    ensures
        match gray_body(s@, pos as int, line as int, Seq::empty()) {
            Err(error) => read == Err::<(Frame, Cursor), ParseError>(error),
            Ok(body) => {
                &&& read matches Ok((frame, cursor))
                &&& cursor.pos == body.pos
                &&& cursor.line == body.line
                &&& pos <= cursor.pos <= s@.len()
                &&& pos < s@.len() ==> pos < cursor.pos
                &&& cursor.line + (s@.len() - cursor.pos) <= usize::MAX
                &&& drawn(
                    frame,
                    Sketch {
                        picture: Picture::Gray(body.rows),
                        min_duration: options.span(),
                        fullscreen: options.whole(),
                    },
                )
            },
        },
{
    let mut frame = GrayFrame::zeroed();
    let mut at = pos;
    let mut n = line;
    let mut y: usize = 0;
    let ghost mut rows: Seq<Seq<u8>> = Seq::empty();
    loop
        invariant
            pos <= at <= s@.len(),
            n + (s@.len() - at) <= usize::MAX,
            at == pos || pos < at,
            y > 0 ==> pos < at,
            y == rows.len(),
            y <= 34,
            forall|j: int| 0 <= j < rows.len() ==> (#[trigger] rows[j]).len() == 9,
            forall|i: int, j: int|
                in_grid(i, j) ==> frame.0[i][j] == if j < rows.len() {
                    rows[j][i]
                } else {
                    0u8
                },
            gray_body(s@, pos as int, line as int, Seq::empty()) == gray_body(
                s@,
                at as int,
                n as int,
                rows,
            ),
        decreases s@.len() - at,
    {
        if at >= s.len() {
            return Ok((options.make_gray(frame), Cursor { pos: at, line: n }));
        }
        let end = find_line_end(s, at);
        let (start, stop) = trim(s, at, end);
        let next = if end < s.len() {
            end + 1
        } else {
            end
        };
        if start == end {
            return Ok((options.make_gray(frame), Cursor { pos: next, line: n + 1 }));
        }
        if y >= 34 {
            if s[start] == BRACE {
                return Ok((options.make_gray(frame), Cursor { pos: at, line: n }));
            }
            return Err(ParseError::TooManyLines { line: n });
        }
        match read_gray_row(s, start, stop) {
            Err(fault) => {
                return Err(
                    match fault {
                        RowFault::Length => ParseError::WrongLineLength { line: n },
                        RowFault::Pixel => ParseError::WrongPixel { line: n },
                    },
                );
            },
            Ok(row) => {
                let ghost before = frame;
                let mut x: usize = 0;
                while x < 9
                    invariant
                        x <= 9,
                        y < 34,
                        forall|i: int, j: int|
                            in_grid(i, j) ==> frame.0[i][j] == if j == y && i < x {
                                row@[i]
                            } else {
                                before.0[i][j]
                            },
                    decreases 9 - x,
                {
                    frame.0[x][y] = row[x];
                    x += 1;
                }
                proof {
                    rows = rows.push(row@);
                }
            },
        }
        at = next;
        n += 1;
        y += 1;
    }
}

/// Reads the next frame from the line at `pos` on, which is line `line`: the
/// frame, how many times it is shown, and where the text goes on. There is
/// none where the text ends before a frame starts.
pub fn parse_frame(s: &[u8], pos: usize, line: usize, default_options: &FrameOptions) -> (read:
    Result<Option<(Frame, usize, Cursor)>, ParseError>)
    requires
        pos <= s@.len(),
        line + (s@.len() - pos) <= usize::MAX,
    ensures
        match frame_at(s@, pos as int, line as int, *default_options) {
            Err(error) => read == Err::<Option<(Frame, usize, Cursor)>, ParseError>(error),
            Ok(None) => read == Ok::<Option<(Frame, usize, Cursor)>, ParseError>(None),
            Ok(Some(step)) => {
                &&& read matches Ok(Some((frame, count, cursor)))
                &&& drawn(frame, step.sketch)
                &&& count == step.count
                &&& cursor.pos == step.pos
                &&& cursor.line == step.line
                &&& pos < cursor.pos <= s@.len()
                &&& cursor.line + (s@.len() - cursor.pos) <= usize::MAX
            },
        },
{
    let mut options = *default_options;
    let mut at = pos;
    let mut n = line;
    loop
        invariant
            pos <= at <= s@.len(),
            n + (s@.len() - at) <= usize::MAX,
            frame_at(s@, pos as int, line as int, *default_options) == frame_at(
                s@,
                at as int,
                n as int,
                options,
            ),
        decreases s@.len() - at,
    {
        if at >= s.len() {
            return Ok(None);
        }
        let end = find_line_end(s, at);
        let (start, stop) = trim(s, at, end);
        let next = if end < s.len() {
            end + 1
        } else {
            end
        };
        if start == end {
            at = next;
            n += 1;
            continue ;
        }
        if s[start] == BRACE {
            let text = slice_subrange(s, start, stop);
            match read_option_line(text) {
                None => {
                    return Err(ParseError::BadOptions { line: n });
                },
                Some(set) => {
                    options.merge_with(&set);
                },
            }
            at = next;
            n += 1;
            continue ;
        }
        let count = match options.repeat {
            Some(count) => count,
            None => 1,
        };
        if s[start] == DOT || s[start] == HASH {
            return match parse_bw(s, at, n, options) {
                Err(error) => Err(error),
                Ok((frame, cursor)) => Ok(Some((frame, count, cursor))),
            };
        } else {
            return match parse_gray(s, at, n, options) {
                Err(error) => Err(error),
                Ok((frame, cursor)) => Ok(Some((frame, count, cursor))),
            };
        }
    }
}

/// Finds the first place where the header ends.
pub fn find_separator(s: &[u8]) -> (found: Option<usize>)
    ensures
        match found {
            Some(at) => first_separator(s@, 0) == Some(at as int) && at + 5 <= s@.len(),
            None => first_separator(s@, 0) is None,
        },
{
    let mut at: usize = 0;
    while s.len() >= 5 && at <= s.len() - 5
        invariant
            at <= s@.len(),
            first_separator(s@, 0) == first_separator(s@, at as int),
        decreases s@.len() - at,
    {
        if s[at] == 0x0a && s[at + 1] == 0x2d && s[at + 2] == 0x2d && s[at + 3] == 0x2d && s[at
            + 4] == 0x0a {
            return Some(at);
        }
        at += 1;
    }
    None
}

/// A keyframe animation as it was read from its file: the frames, not yet
/// moved, and the offset to move them by where the caller names none.
#[derive(Debug)]
pub struct FileAnimation {
    pub frames: Vec<Frame>,
    pub default_offset: i8,
}

impl FileAnimation {
    /// Whether the animation holds what `parsed` says the file holds.
    pub open spec fn holds(&self, parsed: Parsed) -> bool {
        &&& self.default_offset == parsed.default_offset
        &&& all_drawn(self.frames@, parsed.sketches)
    }

    /// Reads a keyframe file. A file that cannot be read whole is not read at
    /// all.
    pub fn from_bytes(s: &[u8]) -> (read: Result<FileAnimation, ParseError>)
        ensures
            match parsed(s@) {
                Err(error) => read matches Err(e) && e == error,
                Ok(parsed) => read matches Ok(animation) && animation.holds(parsed),
            },
    {
        let len = s.len();
        let found = find_separator(s);
        if found.is_none() {
            return Err(ParseError::MissingSeparator);
        }
        let close = found.unwrap();
        let header = slice_subrange(s, 0, close);
        let header_read = read_header(header);
        if let Err(at) = header_read {
            let upto = if at <= close {
                at
            } else {
                close
            };
            return Err(ParseError::BadHeader { line: 1 + count_newlines(header, 0, upto) });
        }
        let options = header_read.unwrap();
        let defaults = FrameOptions {
            repeat: None,
            fullscreen: Some(options.fullscreen),
            min_duration: Some(options.min_duration),
        };
        proof {
            lemma_newlines_of_prefix(s@, 0, close as int, close as int);
        }
        let mut frames: Vec<Frame> = Vec::new();
        let mut at = close + 5;
        let mut n = count_newlines(s, 0, close) + 3;
        let ghost mut done: Seq<Sketch> = Seq::empty();
        loop
            invariant
                at <= s@.len(),
                n + (s@.len() - at) <= usize::MAX,
                all_drawn(frames@, done),
                defaults == options.frame_defaults(),
                first_separator(s@, 0) == Some(close as int),
                header_options(s@.subrange(0, close as int)) == Ok::<FileOptions, usize>(options),
                frames_from(
                    s@,
                    close + 5,
                    newlines(s@, 0, close as int) + 3,
                    options.frame_defaults(),
                    Seq::empty(),
                ) == frames_from(s@, at as int, n as int, defaults, done),
            decreases s@.len() - at,
        {
            match parse_frame(s, at, n, &defaults) {
                Err(error) => {
                    return Err(error);
                },
                Ok(None) => {
                    return Ok(FileAnimation { frames, default_offset: options.default_offset });
                },
                Ok(Some((frame, count, cursor))) => {
                    let ghost step = frame_at(s@, at as int, n as int, defaults)->Ok_0->0;
                    let ghost before = frames@;
                    let mut shown: usize = 0;
                    while shown < count
                        invariant
                            shown <= count,
                            drawn(frame, step.sketch),
                            all_drawn(frames@, done + repeated(step.sketch, shown)),
                        decreases count - shown,
                    {
                        let ghost sofar = done + repeated(step.sketch, shown);
                        frames.push(frame);
                        assert(done + repeated(step.sketch, (shown + 1) as usize) =~= sofar.push(
                            step.sketch,
                        ));
                        shown += 1;
                    }
                    proof {
                        done = done + repeated(step.sketch, count);
                    }
                    at = cursor.pos;
                    n = cursor.line;
                },
            }
        }
    }

    /// Reads a keyframe file from its text.
    pub fn from_str(s: &str) -> (read: Result<FileAnimation, ParseError>)
        ensures
            match parsed(s.spec_bytes()) {
                Err(error) => read matches Err(e) && e == error,
                Ok(parsed) => read matches Ok(animation) && animation.holds(parsed),
            },
    {
        FileAnimation::from_bytes(s.as_bytes())
    }
}

/// The line feeds of a part of the front of `s` are those of that part of
/// `s`.
proof fn lemma_newlines_of_prefix(s: Seq<u8>, lo: int, hi: int, len: int)
    requires
        0 <= lo <= hi <= len <= s.len(),
    ensures
        newlines(s.subrange(0, len), lo, hi) == newlines(s, lo, hi),
    decreases hi - lo,
{
    if lo < hi {
        lemma_newlines_of_prefix(s, lo + 1, hi, len);
    }
}

/// A keyframe animation that is playing: the frames of the file, how many of
/// them were shown, and the rows by which each is moved when it is shown.
#[derive(Debug)]
pub struct FilePlayer {
    pub frames: Vec<Frame>,
    pub position: usize,
    pub offset: i8,
}

impl FilePlayer {
    /// The frames that are still to be shown, as the file holds them.
    pub open spec fn upcoming(&self) -> Seq<Frame> {
        if self.position <= self.frames@.len() {
            self.frames@.skip(self.position as int)
        } else {
            Seq::empty()
        }
    }

    /// Yields the next frame, moved by the offset, or nothing once all were
    /// shown.
    pub fn next(&mut self) -> (frame: Option<Frame>)
        ensures
            final(self).offset == old(self).offset,
            match frame {
                None => old(self).upcoming().len() == 0 && final(self).upcoming().len() == 0,
                Some(frame) => {
                    &&& old(self).upcoming().len() > 0
                    &&& Frame::shifted(old(self).upcoming()[0], old(self).offset as int, frame)
                    &&& final(self).upcoming() == old(self).upcoming().skip(1)
                },
            },
    {
        if self.position < self.frames.len() {
            let frame = self.frames[self.position].offset(self.offset);
            self.position += 1;
            assert(self.upcoming() =~= old(self).upcoming().skip(1));
            Some(frame)
        } else {
            None
        }
    }
}

impl FileAnimation {
    /// Starts to play the animation with its frames moved down by `offset`
    /// rows, or by the offset of the file where none is given. Each frame is
    /// moved when it is shown, and the animation that plays shares nothing
    /// with this one.
    pub fn at(&self, offset: Option<i8>) -> (animation: Animation)
        ensures
            animation matches Animation::File(player),
            animation->File_0.upcoming() == self.frames@,
            animation->File_0.offset == match offset {
                Some(offset) => offset,
                None => self.default_offset,
            },
    {
        Animation::File(self.player(offset))
    }

    /// The state of the animation before its first frame, to be played at
    /// `offset` or at the offset of the file.
    pub fn player(&self, offset: Option<i8>) -> (player: FilePlayer)
        ensures
            player.upcoming() == self.frames@,
            player.offset == match offset {
                Some(offset) => offset,
                None => self.default_offset,
            },
    {
        let mut frames: Vec<Frame> = Vec::new();
        let mut idx: usize = 0;
        while idx < self.frames.len()
            invariant
                idx <= self.frames@.len(),
                frames@ == self.frames@.take(idx as int),
            decreases self.frames@.len() - idx,
        {
            frames.push(self.frames[idx]);
            assert(frames@ =~= self.frames@.take(idx + 1));
            idx += 1;
        }
        assert(frames@ =~= self.frames@);
        let player = FilePlayer {
            frames,
            position: 0,
            offset: match offset {
                Some(offset) => offset,
                None => self.default_offset,
            },
        };
        assert(player.upcoming() =~= self.frames@);
        player
    }
}

} // verus!
