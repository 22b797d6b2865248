//! The decisions of the control layer: what a line of the control socket asks
//! for, where the animation of a charger port plays, and when a request is
//! throttled.

use crate::animations::text::{split_tokens, tokens};
use vstd::prelude::*;
use vstd::string::StringSliceAdditionalSpecFns;

verus! {

/// One of the two displays of the machine.
#[derive(Clone, Copy, Debug, PartialEq, Eq)]
pub enum Side {
    Left,
    Right,
}

/// What follows the display in a request to play an animation.
#[derive(Clone, Copy, Debug, PartialEq, Eq)]
pub enum PlayArgs {
    /// Nothing: the animation plays at the offset of its kind.
    Default,
    /// `offset` and a number: the animation plays at that offset.
    Offset(i8),
    /// `offset` and something that is no number of eight bits with a sign.
    BadOffset,
    /// Anything else.
    BadArgs,
}

/// What a line of the control socket asks for. Words are given by their
/// start and end in the line.
#[derive(Clone, Copy, Debug, PartialEq, Eq)]
pub enum Request {
    /// Play the charger animation.
    Charger,
    /// Play the animation named by one word on the display named by another.
    Play { animation: (usize, usize), display: (usize, usize), args: PlayArgs },
    /// Nothing that the daemon knows.
    Unknown,
}

/// Whether `byte` is a decimal digit.
pub open spec fn is_digit(byte: u8) -> bool {
    0x30 <= byte <= 0x39
}

/// Whether `s` holds nothing but decimal digits.
pub open spec fn all_digits(s: Seq<u8>) -> bool {
    forall|i: int| 0 <= i < s.len() ==> is_digit(#[trigger] s[i])
}

/// The number that the decimal digits `s` write.
pub open spec fn decimal(s: Seq<u8>) -> nat
    decreases s.len(),
{
    if s.len() == 0 {
        0
    } else if is_digit(s.last()) {
        decimal(s.drop_last()) * 10 + (s.last() - 0x30) as nat
    } else {
        decimal(s.drop_last()) * 10
    }
}

/// The number that `s` writes: decimal digits, at least one, after a `+` or a
/// `-` or after no sign.
pub open spec fn signed_decimal(s: Seq<u8>) -> Option<int> {
    if s.len() > 0 && s[0] == 0x2d {
        if s.len() > 1 && all_digits(s.skip(1)) {
            Some(-(decimal(s.skip(1)) as int))
        } else {
            None
        }
    } else if s.len() > 0 && s[0] == 0x2b {
        if s.len() > 1 && all_digits(s.skip(1)) {
            Some(decimal(s.skip(1)) as int)
        } else {
            None
        }
    } else if s.len() > 0 && all_digits(s) {
        Some(decimal(s) as int)
    } else {
        None
    }
}

/// The row offset that `s` writes: a number from -128 to 127.
pub open spec fn offset_of(s: Seq<u8>) -> Option<i8> {
    match signed_decimal(s) {
        Some(value) => if -128 <= value <= 127 {
            Some(value as i8)
        } else {
            None
        },
        None => None,
    }
}

/// The number that the front of some digits writes is not greater than the
/// number that all of them write.
proof fn lemma_decimal_grows(s: Seq<u8>, count: int)
    requires
        0 <= count <= s.len(),
    ensures
        decimal(s.take(count)) <= decimal(s),
    decreases s.len() - count,
{
    if count < s.len() {
        lemma_decimal_grows(s, count + 1);
        assert(s.take(count + 1).drop_last() =~= s.take(count));
    } else {
        assert(s.take(count) =~= s);
    }
}

/// Reads the digits `s[lo..hi]` as a number of at most 128.
fn read_digits(s: &[u8], lo: usize, hi: usize) -> (value: Option<u8>)
    requires
        lo <= hi <= s@.len(),
    ensures
        match value {
            Some(value) => all_digits(s@.subrange(lo as int, hi as int)) && decimal(
                s@.subrange(lo as int, hi as int),
            ) == value && value <= 128,
            None => !all_digits(s@.subrange(lo as int, hi as int)) || decimal(
                s@.subrange(lo as int, hi as int),
            ) > 128,
        },
{
    let ghost digits = s@.subrange(lo as int, hi as int);
    let mut value: u16 = 0;
    let mut at = lo;
    while at < hi
        invariant
            lo <= at <= hi <= s@.len(),
            digits == s@.subrange(lo as int, hi as int),
            all_digits(digits.take(at - lo)),
            decimal(digits.take(at - lo)) == value,
            value <= 128,
        decreases hi - at,
    {
        let byte = s[at];
        proof {
            assert(digits.take(at - lo + 1).drop_last() =~= digits.take(at - lo));
            assert(digits.take(at - lo + 1).last() == byte);
            assert(digits[at - lo] == byte);
        }
        if byte < 0x30 || byte > 0x39 {
            return None;
        }
        value = value * 10 + (byte - 0x30) as u16;
        if value > 128 {
            proof {
                lemma_decimal_grows(digits, at - lo + 1);
            }
            return None;
        }
        at += 1;
    }
    assert(digits.take(hi - lo) =~= digits);
    Some(value as u8)
}

/// Reads the word `s[lo..hi]` as a row offset.
pub fn read_offset(s: &[u8], lo: usize, hi: usize) -> (offset: Option<i8>)
    requires
        lo <= hi <= s@.len(),
    ensures
        offset == offset_of(s@.subrange(lo as int, hi as int)),
{
    let ghost word = s@.subrange(lo as int, hi as int);
    if lo == hi {
        return None;
    }
    assert(word[0] == s@[lo as int]);
    if s[lo] == 0x2d {
        assert(word.skip(1) =~= s@.subrange(lo + 1, hi as int));
        if hi - lo < 2 {
            return None;
        }
        match read_digits(s, lo + 1, hi) {
            Some(value) => Some((0 - value as i16) as i8),
            None => None,
        }
    } else if s[lo] == 0x2b {
        assert(word.skip(1) =~= s@.subrange(lo + 1, hi as int));
        if hi - lo < 2 {
            return None;
        }
        match read_digits(s, lo + 1, hi) {
            Some(value) => if value <= 127 {
                Some(value as i8)
            } else {
                None
            },
            None => None,
        }
    } else {
        match read_digits(s, lo, hi) {
            Some(value) => if value <= 127 {
                Some(value as i8)
            } else {
                None
            },
            None => None,
        }
    }
}

/// The bytes of the word `word` of `line`.
pub open spec fn word_of(line: Seq<u8>, word: (usize, usize)) -> Seq<u8> {
    line.subrange(word.0 as int, word.1 as int)
}

/// What follows the display in a request to play: the words from the fifth
/// on.
pub open spec fn play_args(line: Seq<u8>, words: Seq<(usize, usize)>) -> PlayArgs {
    if words.len() == 4 {
        PlayArgs::Default
    } else if words.len() == 6 && word_of(line, words[4]) == "offset".spec_bytes() {
        match offset_of(word_of(line, words[5])) {
            Some(offset) => PlayArgs::Offset(offset),
            None => PlayArgs::BadOffset,
        }
    } else {
        PlayArgs::BadArgs
    }
}

/// What the line asks for. Its words are parted by white space. The one word
/// `charger` asks for the charger animation; `play`, a name, `at` and a name
/// ask for an animation on a display, and may be followed by `offset` and a
/// number.
pub open spec fn request_of(line: Seq<u8>) -> Request {
    let words = tokens(line, 0, line.len() as int);
    if words.len() == 1 && word_of(line, words[0]) == "charger".spec_bytes() {
        Request::Charger
    } else if words.len() >= 4 && word_of(line, words[0]) == "play".spec_bytes() && word_of(
        line,
        words[2],
    ) == "at".spec_bytes() {
        Request::Play { animation: words[1], display: words[3], args: play_args(line, words) }
    } else {
        Request::Unknown
    }
}

/// Whether the word `s[word.0..word.1]` is `text`.
fn word_is(s: &[u8], word: (usize, usize), text: &str) -> (same: bool)
    requires
        word.0 <= word.1 <= s@.len(),
    ensures
        same == (word_of(s@, word) == text.spec_bytes()),
{
    let bytes = text.as_bytes();
    if word.1 - word.0 != bytes.len() {
        return false;
    }
    let mut at: usize = 0;
    while at < bytes.len()
        invariant
            at <= bytes@.len(),
            bytes@ == text.spec_bytes(),
            word.0 <= word.1 <= s@.len(),
            word.1 - word.0 == bytes@.len(),
            forall|i: int| 0 <= i < at ==> s@[word.0 + i] == bytes@[i],
        decreases bytes@.len() - at,
    {
        if s[word.0 + at] != bytes[at] {
            assert(word_of(s@, word)[at as int] != bytes@[at as int]);
            return false;
        }
        at += 1;
    }
    assert(word_of(s@, word) =~= bytes@);
    true
}

/// Reads a line of the control socket.
pub fn parse_request(line: &[u8]) -> (request: Request)
    ensures
        request == request_of(line@),
{
    let words = split_tokens(line, 0, line.len());
    if words.len() == 1 && word_is(line, words[0], "charger") {
        return Request::Charger;
    }
    if words.len() >= 4 && word_is(line, words[0], "play") && word_is(line, words[2], "at") {
        let args = if words.len() == 4 {
            PlayArgs::Default
        } else if words.len() == 6 && word_is(line, words[4], "offset") {
            match read_offset(line, words[5].0, words[5].1) {
                Some(offset) => PlayArgs::Offset(offset),
                None => PlayArgs::BadOffset,
            }
        } else {
            PlayArgs::BadArgs
        };
        return Request::Play { animation: words[1], display: words[3], args };
    }
    Request::Unknown
}

/// Where the animation of the charger port `port` plays: the display on its
/// side of the machine, and the row of the port moved down by `shift`. The
/// row stays within the range of an offset; every offset past the grid gives
/// the same empty picture. Ports beyond the fourth have no place.
pub open spec fn placement_of(port: int, shift: i8) -> Option<(Side, i8)> {
    let row: int = if port == 0 || port == 3 {
        14
    } else {
        24
    };
    let side = if port == 0 || port == 1 {
        Side::Right
    } else {
        Side::Left
    };
    if 0 <= port <= 3 {
        Some(
            (
                side,
                if row + shift > 127 {
                    127i8
                } else {
                    (row + shift) as i8
                },
            ),
        )
    } else {
        None
    }
}

/// Where the animation of a charger port plays.
pub fn charger_placement(port: usize, shift: i8) -> (place: Option<(Side, i8)>)
    ensures
        place == placement_of(port as int, shift),
{
    match port {
        0 => Some((Side::Right, shifted_row(14, shift))),
        1 => Some((Side::Right, shifted_row(24, shift))),
        2 => Some((Side::Left, shifted_row(24, shift))),
        3 => Some((Side::Left, shifted_row(14, shift))),
        _ => None,
    }
}

/// The row `row` moved down by `shift`, and 127 where that is more.
fn shifted_row(row: i8, shift: i8) -> (moved: i8)
    requires
        0 <= row,
    ensures
        moved == if row + shift > 127 {
            127int
        } else {
            row + shift
        },
{
    let sum: i16 = row as i16 + shift as i16;
    if sum > 127 {
        127
    } else {
        sum as i8
    }
}

/// The time to note as that of the last charger animation, where a request at
/// `now` is let through: one that comes more than a second after the last.
/// Times are in milliseconds.
pub open spec fn let_through(last_played: u64, now: u64) -> Option<u64> {
    if now - last_played > 1000 {
        Some(now)
    } else {
        None
    }
}

/// Decides whether a request for the charger animation is let through.
pub fn throttle(last_played: u64, now: u64) -> (noted: Option<u64>)
    ensures
        noted == let_through(last_played, now),
{
    if now > last_played && now - last_played > 1000 {
        Some(now)
    } else {
        None
    }
}

} // verus!
