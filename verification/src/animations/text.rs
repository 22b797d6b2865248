//! Lines, white space and tokens in the bytes of a keyframe file.

use vstd::prelude::*;

verus! {

/// The line feed, which ends a line.
pub const NEWLINE: u8 = 0x0a;

/// Whether `byte` is one of the five white-space characters of ASCII that
/// separate the items of a line: tab, line feed, form feed, carriage return
/// and space.
pub open spec fn is_gap(byte: u8) -> bool {
    byte == 0x09 || byte == 0x0a || byte == 0x0c || byte == 0x0d || byte == 0x20
}

/// Whether `byte` alone encodes a white-space character: the five of
/// `is_gap` and the vertical tab.
pub open spec fn is_narrow_space(byte: u8) -> bool {
    0x09 <= byte <= 0x0d || byte == 0x20
}

/// Whether `a b` is the UTF-8 form of a white-space character: U+0085 or
/// U+00A0.
pub open spec fn is_medium_space(a: u8, b: u8) -> bool {
    a == 0xc2 && (b == 0x85 || b == 0xa0)
}

/// Whether `a b c` is the UTF-8 form of a white-space character: U+1680,
/// U+2000 to U+200A, U+2028, U+2029, U+202F, U+205F or U+3000.
pub open spec fn is_wide_space(a: u8, b: u8, c: u8) -> bool {
    ||| a == 0xe1 && b == 0x9a && c == 0x80
    ||| a == 0xe2 && b == 0x80 && (0x80 <= c <= 0x8a || c == 0xa8 || c == 0xa9 || c == 0xaf)
    ||| a == 0xe2 && b == 0x81 && c == 0x9f
    ||| a == 0xe3 && b == 0x80 && c == 0x80
}

/// The length of the white-space character that starts at `at` and ends
/// before `hi`, and zero where none does.
pub open spec fn space_at(s: Seq<u8>, at: int, hi: int) -> int {
    if at < hi && is_narrow_space(s[at]) {
        1
    } else if at + 1 < hi && is_medium_space(s[at], s[at + 1]) {
        2
    } else if at + 2 < hi && is_wide_space(s[at], s[at + 1], s[at + 2]) {
        3
    } else {
        0
    }
}

/// The length of the white-space character that ends at `at` and starts at
/// `lo` or later, and zero where none does.
pub open spec fn space_before(s: Seq<u8>, lo: int, at: int) -> int {
    if lo < at && is_narrow_space(s[at - 1]) {
        1
    } else if lo + 1 < at && is_medium_space(s[at - 2], s[at - 1]) {
        2
    } else if lo + 2 < at && is_wide_space(s[at - 3], s[at - 2], s[at - 1]) {
        3
    } else {
        0
    }
}

/// Where the text of `s[lo..hi]` starts once the white space at its front is
/// taken off; `hi` where it holds nothing else.
pub open spec fn content_start(s: Seq<u8>, lo: int, hi: int) -> int
    decreases hi - lo,
{
    if space_at(s, lo, hi) > 0 {
        content_start(s, lo + space_at(s, lo, hi), hi)
    } else {
        lo
    }
}

/// Where the text of `s[lo..hi]` ends once the white space at its back is
/// taken off.
pub open spec fn content_end(s: Seq<u8>, lo: int, hi: int) -> int
    decreases hi - lo,
{
    if space_before(s, lo, hi) > 0 {
        content_end(s, lo, hi - space_before(s, lo, hi))
    } else {
        hi
    }
}

/// The end of the line that starts at `pos`: the place of the next line feed,
/// or the end of `s`.
pub open spec fn line_end(s: Seq<u8>, pos: int) -> int
    decreases s.len() - pos,
{
    if pos < 0 || pos >= s.len() {
        s.len() as int
    } else if s[pos] == NEWLINE {
        pos
    } else {
        line_end(s, pos + 1)
    }
}

/// Where the line after the one at `pos` starts.
pub open spec fn line_after(s: Seq<u8>, pos: int) -> int {
    if line_end(s, pos) < s.len() {
        line_end(s, pos) + 1
    } else {
        s.len() as int
    }
}

/// The number of line feeds in `s[lo..hi]`.
pub open spec fn newlines(s: Seq<u8>, lo: int, hi: int) -> int
    decreases hi - lo,
{
    if lo >= hi {
        0
    } else if s[lo] == NEWLINE {
        1 + newlines(s, lo + 1, hi)
    } else {
        newlines(s, lo + 1, hi)
    }
}

/// The bytes of `s[lo..hi]` that are no gap, in their order.
pub open spec fn marks(s: Seq<u8>, lo: int, hi: int) -> Seq<u8>
    decreases hi - lo,
{
    if lo >= hi {
        Seq::empty()
    } else if is_gap(s[lo]) {
        marks(s, lo + 1, hi)
    } else {
        seq![s[lo]] + marks(s, lo + 1, hi)
    }
}

/// Where the token that starts at `lo` ends: at the next gap, or at `hi`.
pub open spec fn token_end(s: Seq<u8>, lo: int, hi: int) -> int
    decreases hi - lo,
{
    if lo >= hi || is_gap(s[lo]) {
        lo
    } else {
        token_end(s, lo + 1, hi)
    }
}

/// The tokens of `s[lo..hi]`: its longest runs of bytes without a gap, each by
/// its start and its end.
pub open spec fn tokens(s: Seq<u8>, lo: int, hi: int) -> Seq<(usize, usize)>
    decreases hi - lo,
{
    if lo >= hi {
        Seq::empty()
    } else if is_gap(s[lo]) {
        tokens(s, lo + 1, hi)
    } else {
        proof {
            lemma_token_end(s, lo, hi);
        }
        seq![(lo as usize, token_end(s, lo, hi) as usize)] + tokens(s, token_end(s, lo, hi), hi)
    }
}

/// A token that starts on a byte that is no gap holds that byte, and ends
/// before `hi` on a gap or at `hi`.
pub proof fn lemma_token_end(s: Seq<u8>, lo: int, hi: int)
    requires
        lo <= hi,
    ensures
        lo <= token_end(s, lo, hi) <= hi,
        lo < hi && !is_gap(s[lo]) ==> lo < token_end(s, lo, hi),
    decreases hi - lo,
{
    if lo < hi && !is_gap(s[lo]) {
        lemma_token_end(s, lo + 1, hi);
    }
}

/// A line ends at or after its start, and the next one starts after it.
pub proof fn lemma_line_end(s: Seq<u8>, pos: int)
    requires
        0 <= pos <= s.len(),
    ensures
        pos <= line_end(s, pos) <= s.len(),
        pos <= line_after(s, pos) <= s.len(),
        pos < s.len() ==> pos < line_after(s, pos),
    decreases s.len() - pos,
{
    if pos < s.len() && s[pos] != NEWLINE {
        lemma_line_end(s, pos + 1);
    }
}

/// The value of a hexadecimal digit of either case.
pub open spec fn hex_digit(byte: u8) -> Option<int> {
    if 0x30 <= byte <= 0x39 {
        Some(byte - 0x30)
    } else if 0x61 <= byte <= 0x66 {
        Some(byte - 0x61 + 10)
    } else if 0x41 <= byte <= 0x46 {
        Some(byte - 0x41 + 10)
    } else {
        None
    }
}

/// The number that `s[lo..hi]` writes with two hexadecimal digits.
pub open spec fn hex_pair(s: Seq<u8>, lo: int, hi: int) -> Option<u8> {
    if hi - lo == 2 && hex_digit(s[lo]) is Some && hex_digit(s[lo + 1]) is Some {
        Some((hex_digit(s[lo])->0 * 16 + hex_digit(s[lo + 1])->0) as u8)
    } else {
        None
    }
}

/// Whether `byte` separates the items of a line.
pub fn gap(byte: u8) -> (yes: bool)
    ensures
        yes == is_gap(byte),
{
    byte == 0x09 || byte == 0x0a || byte == 0x0c || byte == 0x0d || byte == 0x20
}

fn wide_space(a: u8, b: u8, c: u8) -> (yes: bool)
    ensures
        yes == is_wide_space(a, b, c),
{
    (a == 0xe1 && b == 0x9a && c == 0x80) || (a == 0xe2 && b == 0x80 && ((0x80 <= c && c <= 0x8a)
        || c == 0xa8 || c == 0xa9 || c == 0xaf)) || (a == 0xe2 && b == 0x81 && c == 0x9f) || (a
        == 0xe3 && b == 0x80 && c == 0x80)
}

fn leading_space(s: &[u8], at: usize, hi: usize) -> (len: usize)
    requires
        at <= hi <= s@.len(),
    ensures
        len == space_at(s@, at as int, hi as int),
        at + len <= hi,
{
    if at < hi && ((0x09 <= s[at] && s[at] <= 0x0d) || s[at] == 0x20) {
        1
    } else if hi - at > 1 && s[at] == 0xc2 && (s[at + 1] == 0x85 || s[at + 1] == 0xa0) {
        2
    } else if hi - at > 2 && wide_space(s[at], s[at + 1], s[at + 2]) {
        3
    } else {
        0
    }
}

fn trailing_space(s: &[u8], lo: usize, at: usize) -> (len: usize)
    requires
        lo <= at <= s@.len(),
    ensures
        len == space_before(s@, lo as int, at as int),
        lo + len <= at,
{
    if lo < at && ((0x09 <= s[at - 1] && s[at - 1] <= 0x0d) || s[at - 1] == 0x20) {
        1
    } else if at - lo > 1 && s[at - 2] == 0xc2 && (s[at - 1] == 0x85 || s[at - 1] == 0xa0) {
        2
    } else if at - lo > 2 && wide_space(s[at - 3], s[at - 2], s[at - 1]) {
        3
    } else {
        0
    }
}

/// Takes the white space off both ends of `s[lo..hi]`: the result is the
/// start and the end of what is left, and both are `hi` where nothing is.
pub fn trim(s: &[u8], lo: usize, hi: usize) -> (text: (usize, usize))
    requires
        lo <= hi <= s@.len(),
    ensures
        text.0 == content_start(s@, lo as int, hi as int),
        text.1 == content_end(s@, text.0 as int, hi as int),
        lo <= text.0 <= text.1 <= hi,
{
    let mut start = lo;
    loop
        invariant
            lo <= start <= hi <= s@.len(),
            content_start(s@, lo as int, hi as int) == content_start(s@, start as int, hi as int),
        ensures
            lo <= start <= hi,
            start == content_start(s@, lo as int, hi as int),
        decreases hi - start,
    {
        let len = leading_space(s, start, hi);
        if len == 0 {
            break ;
        }
        start += len;
    }
    let mut end = hi;
    loop
        invariant
            start <= end <= hi <= s@.len(),
            content_end(s@, start as int, hi as int) == content_end(s@, start as int, end as int),
        ensures
            start <= end <= hi,
            end == content_end(s@, start as int, hi as int),
        decreases end - start,
    {
        let len = trailing_space(s, start, end);
        if len == 0 {
            break ;
        }
        end -= len;
    }
    (start, end)
}

/// Finds the end of the line that starts at `pos`.
pub fn find_line_end(s: &[u8], pos: usize) -> (end: usize)
    requires
        pos <= s@.len(),
    ensures
        end == line_end(s@, pos as int),
        pos <= end <= s@.len(),
        end < s@.len() ==> s@[end as int] == NEWLINE,
{
    let mut end = pos;
    while end < s.len() && s[end] != NEWLINE
        invariant
            pos <= end <= s@.len(),
            line_end(s@, pos as int) == line_end(s@, end as int),
        decreases s@.len() - end,
    {
        end += 1;
    }
    end
}

/// Counts the line feeds in `s[lo..hi]`.
pub fn count_newlines(s: &[u8], lo: usize, hi: usize) -> (count: usize)
    requires
        lo <= hi <= s@.len(),
    ensures
        count == newlines(s@, lo as int, hi as int),
        count <= hi - lo,
{
    let mut count: usize = 0;
    let mut at = lo;
    while at < hi
        invariant
            lo <= at <= hi <= s@.len(),
            count <= at - lo,
            newlines(s@, lo as int, hi as int) == count + newlines(s@, at as int, hi as int),
        decreases hi - at,
    {
        if s[at] == NEWLINE {
            count += 1;
        }
        at += 1;
    }
    count
}

/// Reads a hexadecimal digit of either case.
pub fn read_hex_digit(byte: u8) -> (value: Option<u8>)
    ensures
        match value {
            Some(v) => hex_digit(byte) == Some(v as int) && v < 16,
            None => hex_digit(byte) is None,
        },
{
    if 0x30 <= byte && byte <= 0x39 {
        Some(byte - 0x30)
    } else if 0x61 <= byte && byte <= 0x66 {
        Some(byte - 0x61 + 10)
    } else if 0x41 <= byte && byte <= 0x46 {
        Some(byte - 0x41 + 10)
    } else {
        None
    }
}

/// Reads the token `s[lo..hi]` as two hexadecimal digits.
pub fn read_hex_pair(s: &[u8], lo: usize, hi: usize) -> (value: Option<u8>)
    requires
        lo <= hi <= s@.len(),
    ensures
        value == hex_pair(s@, lo as int, hi as int),
{
    if hi - lo != 2 {
        return None;
    }
    match (read_hex_digit(s[lo]), read_hex_digit(s[lo + 1])) {
        (Some(high), Some(low)) => Some(high * 16 + low),
        _ => None,
    }
}

/// Splits `s[lo..hi]` into its tokens.
pub fn split_tokens(s: &[u8], lo: usize, hi: usize) -> (found: Vec<(usize, usize)>)
    requires
        lo <= hi <= s@.len(),
    ensures
        found@ == tokens(s@, lo as int, hi as int),
        forall|i: int|
            0 <= i < found@.len() ==> lo <= (#[trigger] found@[i]).0 < found@[i].1 <= hi,
{
    let mut found: Vec<(usize, usize)> = Vec::new();
    let mut at = lo;
    while at < hi
        invariant
            lo <= at <= hi <= s@.len(),
            tokens(s@, lo as int, hi as int) == found@ + tokens(s@, at as int, hi as int),
            forall|i: int|
                0 <= i < found@.len() ==> lo <= (#[trigger] found@[i]).0 < found@[i].1 <= hi,
        decreases hi - at,
    {
        if gap(s[at]) {
            at += 1;
        } else {
            let mut end = at;
            while end < hi && !gap(s[end])
                invariant
                    at <= end <= hi <= s@.len(),
                    token_end(s@, at as int, hi as int) == token_end(s@, end as int, hi as int),
                decreases hi - end,
            {
                end += 1;
            }
            proof {
                lemma_token_end(s@, at as int, hi as int);
            }
            let ghost before = found@;
            found.push((at, end));
            assert(found@ + tokens(s@, end as int, hi as int) == before + (seq![(at, end)] + tokens(
                s@,
                end as int,
                hi as int,
            )));
            at = end;
        }
    }
    assert(tokens(s@, lo as int, hi as int) == found@);
    found
}

} // verus!
