//! The options of a keyframe file: TOML text turned into plain entries, and
//! the entries read as the options of the file and of a frame.

use crate::animations::file::{FileOptions, FrameOptions};
use crate::animations::FrameDuration;
use serde::Deserialize;
use std::collections::BTreeMap;
use toml::de::ValueDeserializer;
use toml::{Spanned, Value};
use vstd::prelude::*;
use vstd::string::StringSliceAdditionalSpecFns;

verus! {

/// A TOML value as far as the options read it.
#[derive(Debug)]
pub enum OptionValue {
    /// A string, as its UTF-8 bytes.
    Text(Vec<u8>),
    Integer(i64),
    Boolean(bool),
    /// A float, a date, an array or a table.
    Other,
}

/// An `OptionValue` as a plain value.
pub enum ValueView {
    Text(Seq<u8>),
    Integer(i64),
    Boolean(bool),
    Other,
}

impl View for OptionValue {
    type V = ValueView;

    open spec fn view(&self) -> ValueView {
        match *self {
            OptionValue::Text(text) => ValueView::Text(text@),
            OptionValue::Integer(number) => ValueView::Integer(number),
            OptionValue::Boolean(flag) => ValueView::Boolean(flag),
            OptionValue::Other => ValueView::Other,
        }
    }
}

/// One key of a TOML table with its value.
#[derive(Debug)]
pub struct OptionEntry {
    /// The key, as its UTF-8 bytes.
    pub key: Vec<u8>,
    pub value: OptionValue,
    /// Where the key starts in the text that was parsed.
    pub offset: usize,
}

/// An `OptionEntry` as a plain value.
pub struct EntryView {
    pub key: Seq<u8>,
    pub value: ValueView,
    pub offset: usize,
}

impl View for OptionEntry {
    type V = EntryView;

    open spec fn view(&self) -> EntryView {
        EntryView { key: self.key@, value: self.value@, offset: self.offset }
    }
}

/// The views of the entries, in their order.
pub open spec fn entry_views(entries: Seq<OptionEntry>) -> Seq<EntryView> {
    entries.map_values(|entry: OptionEntry| entry@)
}

/// What the TOML parser makes of `text` as a document: the keys of its top
/// table in ascending order, each with its value and with the place where the
/// key starts, or, where `text` is no TOML document, the place that the
/// parser names, if it names one. Bytes that are no UTF-8 count as U+FFFD.
pub uninterp spec fn toml_document(text: Seq<u8>) -> Result<Seq<EntryView>, Option<usize>>;

/// What the TOML parser makes of `text` as a single value that is a table:
/// its keys in ascending order, each with its value, or nothing where `text`
/// is no such value. Bytes that are no UTF-8 count as U+FFFD.
pub uninterp spec fn toml_inline_table(text: Seq<u8>) -> Option<Seq<EntryView>>;

/// The length in nanoseconds that the `humantime` parser reads from `text`,
/// such as `1h 30min` or `10ms`, or nothing where it reads none. Bytes that
/// are no UTF-8 count as U+FFFD.
pub uninterp spec fn humantime_nanos(text: Seq<u8>) -> Option<u128>;

/// `toml::from_str` into a map from key, with its span, to value. The result
/// is that of the parser, entry by entry: strings, integers and booleans keep
/// their value, every other kind of value is `Other`.
#[verifier::external_body]
fn parse_document(text: &[u8]) -> (table: Result<Vec<OptionEntry>, Option<usize>>)
    ensures
        match table {
            Ok(entries) => toml_document(text@) == Ok::<Seq<EntryView>, Option<usize>>(
                entry_views(entries@),
            ),
            Err(at) => toml_document(text@) == Err::<Seq<EntryView>, Option<usize>>(at),
        },
{
    let text = String::from_utf8_lossy(text);
    match toml::from_str::<BTreeMap<Spanned<String>, Value>>(&text) {
        Ok(map) => Ok(map.into_iter().map(|(key, item)| OptionEntry {
            offset: key.span().start,
            key: key.into_inner().into_bytes(),
            value: match item {
                Value::String(text) => OptionValue::Text(text.into_bytes()),
                Value::Integer(number) => OptionValue::Integer(number),
                Value::Boolean(flag) => OptionValue::Boolean(flag),
                _ => OptionValue::Other,
            },
        }).collect()),
        Err(error) => Err(error.span().map(|span| span.start)),
    }
}

/// `toml::de::ValueDeserializer::new`, deserialized into a map from key to
/// value. The result is that of the parser, entry by entry, as in
/// `parse_document`; every offset is zero.
#[verifier::external_body]
fn parse_inline_table(text: &[u8]) -> (table: Option<Vec<OptionEntry>>)
    ensures
        match table {
            Some(entries) => toml_inline_table(text@) == Some(entry_views(entries@)),
            None => toml_inline_table(text@) is None,
        },
{
    let text = String::from_utf8_lossy(text);
    let map = BTreeMap::<String, Value>::deserialize(ValueDeserializer::new(&text)).ok()?;
    Some(map.into_iter().map(|(key, item)| OptionEntry {
        key: key.into_bytes(),
        offset: 0,
        value: match item {
            Value::String(text) => OptionValue::Text(text.into_bytes()),
            Value::Integer(number) => OptionValue::Integer(number),
            Value::Boolean(flag) => OptionValue::Boolean(flag),
            _ => OptionValue::Other,
        },
    }).collect())
}

/// The most decimal digits that a length of time may hold.
pub const MAX_DIGITS: usize = 11;

/// The number of decimal digits among `text[from..]`.
pub open spec fn digits(text: Seq<u8>, from: int) -> int
    decreases text.len() - from,
{
    if from < 0 || from >= text.len() {
        0
    } else if 0x30 <= text[from] <= 0x39 {
        1 + digits(text, from + 1)
    } else {
        digits(text, from + 1)
    }
}

/// `humantime::parse_duration`, with the length it reads in nanoseconds. With
/// no more than eleven digits in the text no sum in the parser reaches the
/// limit of its seconds, on which it would panic.
#[verifier::external_body]
fn parse_duration(text: &[u8]) -> (span: Option<FrameDuration>)
    requires
        digits(text@, 0) <= MAX_DIGITS,
    ensures
        span == match humantime_nanos(text@) {
            Some(nanos) => Some(FrameDuration { nanos }),
            None => None,
        },
{
    match humantime::parse_duration(&String::from_utf8_lossy(text)) {
        Ok(span) => Some(FrameDuration { nanos: span.as_nanos() }),
        Err(_) => None,
    }
}

/// The length of time that `text` writes: what `humantime` reads from it, and
/// nothing where it holds more than eleven digits.
pub open spec fn span_of(text: Seq<u8>) -> Option<FrameDuration> {
    if digits(text, 0) <= MAX_DIGITS {
        match humantime_nanos(text) {
            Some(nanos) => Some(FrameDuration { nanos }),
            None => None,
        }
    } else {
        None
    }
}

/// Reads a length of time such as `10ms` or `1h 30min`. A text with more than
/// eleven digits is not read.
pub fn read_span(text: &[u8]) -> (span: Option<FrameDuration>)
    ensures
        span == span_of(text@),
{
    let mut count: usize = 0;
    let mut at: usize = 0;
    while at < text.len()
        invariant
            at <= text@.len(),
            count <= at,
            digits(text@, 0) == count + digits(text@, at as int),
        decreases text@.len() - at,
    {
        if 0x30 <= text[at] && text[at] <= 0x39 {
            count += 1;
        }
        at += 1;
    }
    if count <= MAX_DIGITS {
        parse_duration(text)
    } else {
        None
    }
}

/// What a table holds under one key.
pub enum Reading<T> {
    /// The table does not hold the key.
    Absent,
    /// The value under the key.
    Value(T),
    /// The value under the key is of the wrong kind or out of range; the key
    /// starts at this place of the text.
    Fault(usize),
}

impl<T> Reading<T> {
    /// The place of the wrong value, where there is one.
    pub open spec fn fault(self) -> Option<usize> {
        match self {
            Reading::Fault(at) => Some(at),
            _ => None,
        }
    }

    /// The value, where the table holds a right one.
    pub open spec fn value(self) -> Option<T> {
        match self {
            Reading::Value(value) => Some(value),
            _ => None,
        }
    }
}

/// The first of the places that are there.
pub open spec fn earlier(a: Option<usize>, b: Option<usize>) -> Option<usize> {
    match (a, b) {
        (Some(x), Some(y)) => if x <= y {
            a
        } else {
            b
        },
        (Some(_), None) => a,
        _ => b,
    }
}

/// The index of the first entry from `from` on that has the key `key`.
pub open spec fn first_entry(entries: Seq<EntryView>, key: Seq<u8>, from: int) -> Option<int>
    decreases entries.len() - from,
{
    if from < 0 || from >= entries.len() {
        None
    } else if entries[from].key == key {
        Some(from)
    } else {
        first_entry(entries, key, from + 1)
    }
}

/// The integer under `key`, which has to lie between `lo` and `hi`.
pub open spec fn integer_entry(entries: Seq<EntryView>, key: Seq<u8>, lo: int, hi: int) -> Reading<
    i64,
> {
    match first_entry(entries, key, 0) {
        None => Reading::Absent,
        Some(at) => match entries[at].value {
            ValueView::Integer(number) if lo <= number <= hi => Reading::Value(number),
            _ => Reading::Fault(entries[at].offset),
        },
    }
}

/// The boolean under `key`.
pub open spec fn flag_entry(entries: Seq<EntryView>, key: Seq<u8>) -> Reading<bool> {
    match first_entry(entries, key, 0) {
        None => Reading::Absent,
        Some(at) => match entries[at].value {
            ValueView::Boolean(flag) => Reading::Value(flag),
            _ => Reading::Fault(entries[at].offset),
        },
    }
}

/// The length of time under `key`, which has to be a string that writes one.
pub open spec fn span_entry(entries: Seq<EntryView>, key: Seq<u8>) -> Reading<FrameDuration> {
    match first_entry(entries, key, 0) {
        None => Reading::Absent,
        Some(at) => match entries[at].value {
            ValueView::Text(text) => match span_of(text) {
                Some(span) => Reading::Value(span),
                None => Reading::Fault(entries[at].offset),
            },
            _ => Reading::Fault(entries[at].offset),
        },
    }
}

/// The options that the table of a header stands for: `default_offset` is an
/// integer that fits in eight bits with a sign, `min_duration` a string that
/// writes a length of time, `fullscreen` a boolean. A key that is missing
/// leaves zero, no time and `false`; other keys are passed over. Where a value
/// is wrong the result is the place of the first key in the text that has a
/// wrong one.
pub open spec fn file_options_of(entries: Seq<EntryView>) -> Result<FileOptions, usize> {
    let offset = integer_entry(entries, "default_offset".spec_bytes(), -128, 127);
    let span = span_entry(entries, "min_duration".spec_bytes());
    let flag = flag_entry(entries, "fullscreen".spec_bytes());
    match earlier(earlier(offset.fault(), span.fault()), flag.fault()) {
        Some(at) => Err(at),
        None => Ok(
            FileOptions {
                default_offset: match offset.value() {
                    Some(number) => number as i8,
                    None => 0i8,
                },
                min_duration: match span.value() {
                    Some(span) => span,
                    None => FrameDuration { nanos: 0 },
                },
                fullscreen: match flag.value() {
                    Some(flag) => flag,
                    None => false,
                },
            },
        ),
    }
}

/// The options that the table of an option line stands for: `repeat` is an
/// integer from zero to the greatest `usize`, `fullscreen` a boolean,
/// `min_duration` a string that writes a length of time. A key that is
/// missing leaves its option unset; other keys are passed over. Where a value
/// is wrong there is no result.
pub open spec fn frame_options_of(entries: Seq<EntryView>) -> Option<FrameOptions> {
    let repeat = integer_entry(entries, "repeat".spec_bytes(), 0, usize::MAX as int);
    let flag = flag_entry(entries, "fullscreen".spec_bytes());
    let span = span_entry(entries, "min_duration".spec_bytes());
    if repeat.fault() is Some || flag.fault() is Some || span.fault() is Some {
        None
    } else {
        Some(
            FrameOptions {
                repeat: match repeat.value() {
                    Some(number) => Some(number as usize),
                    None => None,
                },
                fullscreen: flag.value(),
                min_duration: span.value(),
            },
        )
    }
}

/// The options that the header `text` sets, or the place of what is wrong in
/// it: where it is no TOML, the place that the parser names, or the start of
/// the text if it names none; else the first key with a value of the wrong
/// kind.
pub open spec fn header_options(text: Seq<u8>) -> Result<FileOptions, usize> {
    match toml_document(text) {
        Err(Some(at)) => Err(at),
        Err(None) => Err(0usize),
        Ok(entries) => file_options_of(entries),
    }
}

/// The options that the line `text` sets, or nothing where it is no TOML
/// table or holds a value of the wrong kind.
pub open spec fn line_options(text: Seq<u8>) -> Option<FrameOptions> {
    match toml_inline_table(text) {
        None => None,
        Some(entries) => frame_options_of(entries),
    }
}

/// Whether two runs of bytes are the same.
pub fn same_bytes(a: &[u8], b: &[u8]) -> (same: bool)
    ensures
        same == (a@ == b@),
{
    if a.len() != b.len() {
        return false;
    }
    let mut at: usize = 0;
    while at < a.len()
        invariant
            at <= a@.len(),
            a@.len() == b@.len(),
            forall|i: int| 0 <= i < at ==> a@[i] == b@[i],
        decreases a@.len() - at,
    {
        if a[at] != b[at] {
            return false;
        }
        at += 1;
    }
    assert(a@ =~= b@);
    true
}

/// Finds the first entry with the key `key`.
pub fn find_entry(entries: &Vec<OptionEntry>, key: &str) -> (found: Option<usize>)
    ensures
        match found {
            Some(at) => at < entries@.len() && first_entry(
                entry_views(entries@),
                key.spec_bytes(),
                0,
            ) == Some(at as int),
            None => first_entry(entry_views(entries@), key.spec_bytes(), 0) is None,
        },
{
    let mut at: usize = 0;
    while at < entries.len()
        invariant
            at <= entries@.len(),
            first_entry(entry_views(entries@), key.spec_bytes(), 0) == first_entry(
                entry_views(entries@),
                key.spec_bytes(),
                at as int,
            ),
        decreases entries@.len() - at,
    {
        if same_bytes(entries[at].key.as_slice(), key.as_bytes()) {
            return Some(at);
        }
        at += 1;
    }
    None
}

/// Reads the integer under `key`.
pub fn read_integer(entries: &Vec<OptionEntry>, key: &str, lo: i64, hi: i64) -> (reading: Reading<
    i64,
>)
    ensures
        reading == integer_entry(entry_views(entries@), key.spec_bytes(), lo as int, hi as int),
{
    match find_entry(entries, key) {
        None => Reading::Absent,
        Some(at) => match &entries[at].value {
            OptionValue::Integer(number) => {
                if lo <= *number && *number <= hi {
                    Reading::Value(*number)
                } else {
                    Reading::Fault(entries[at].offset)
                }
            },
            _ => Reading::Fault(entries[at].offset),
        },
    }
}

/// Reads the boolean under `key`.
pub fn read_flag(entries: &Vec<OptionEntry>, key: &str) -> (reading: Reading<bool>)
    ensures
        reading == flag_entry(entry_views(entries@), key.spec_bytes()),
{
    match find_entry(entries, key) {
        None => Reading::Absent,
        Some(at) => match &entries[at].value {
            OptionValue::Boolean(flag) => Reading::Value(*flag),
            _ => Reading::Fault(entries[at].offset),
        },
    }
}

/// Reads the length of time under `key`.
pub fn read_span_entry(entries: &Vec<OptionEntry>, key: &str) -> (reading: Reading<FrameDuration>)
    ensures
        reading == span_entry(entry_views(entries@), key.spec_bytes()),
{
    match find_entry(entries, key) {
        None => Reading::Absent,
        Some(at) => match &entries[at].value {
            OptionValue::Text(text) => match read_span(text.as_slice()) {
                Some(span) => Reading::Value(span),
                None => Reading::Fault(entries[at].offset),
            },
            _ => Reading::Fault(entries[at].offset),
        },
    }
}

/// The first of the places that are there.
fn pick_earlier(a: Option<usize>, b: Option<usize>) -> (first: Option<usize>)
    ensures
        first == earlier(a, b),
{
    match (a, b) {
        (Some(x), Some(y)) => if x <= y {
            a
        } else {
            b
        },
        (Some(_), None) => a,
        _ => b,
    }
}

fn fault_of<T>(reading: &Reading<T>) -> (at: Option<usize>)
    ensures
        at == reading.fault(),
{
    match reading {
        Reading::Fault(at) => Some(*at),
        _ => None,
    }
}

/// Reads the options of a header from the entries of its table.
pub fn read_file_options(entries: &Vec<OptionEntry>) -> (options: Result<FileOptions, usize>)
    ensures
        options == file_options_of(entry_views(entries@)),
{
    let offset = read_integer(entries, "default_offset", -128, 127);
    let span = read_span_entry(entries, "min_duration");
    let flag = read_flag(entries, "fullscreen");
    match pick_earlier(pick_earlier(fault_of(&offset), fault_of(&span)), fault_of(&flag)) {
        Some(at) => Err(at),
        None => Ok(
            FileOptions {
                default_offset: match offset {
                    Reading::Value(number) => number as i8,
                    _ => 0,
                },
                min_duration: match span {
                    Reading::Value(span) => span,
                    _ => FrameDuration::zero(),
                },
                fullscreen: match flag {
                    Reading::Value(flag) => flag,
                    _ => false,
                },
            },
        ),
    }
}

/// Reads the options of an option line from the entries of its table.
pub fn read_frame_options(entries: &Vec<OptionEntry>) -> (options: Option<FrameOptions>)
    ensures
        options == frame_options_of(entry_views(entries@)),
{
    let repeat = read_integer(entries, "repeat", 0, i64::MAX);
    let flag = read_flag(entries, "fullscreen");
    let span = read_span_entry(entries, "min_duration");
    if fault_of(&repeat).is_some() || fault_of(&flag).is_some() || fault_of(&span).is_some() {
        return None;
    }
    let repeat = match repeat {
        Reading::Value(number) => {
            if number as u64 > usize::MAX as u64 {
                return None;
            }
            Some(number as usize)
        },
        _ => None,
    };
    Some(
        FrameOptions {
            repeat,
            fullscreen: match flag {
                Reading::Value(flag) => Some(flag),
                _ => None,
            },
            min_duration: match span {
                Reading::Value(span) => Some(span),
                _ => None,
            },
        },
    )
}

/// Reads the options of the header `text`.
pub fn read_header(text: &[u8]) -> (options: Result<FileOptions, usize>)
    ensures
        options == header_options(text@),
{
    match parse_document(text) {
        Err(Some(at)) => Err(at),
        Err(None) => Err(0),
        Ok(entries) => read_file_options(&entries),
    }
}

/// Reads the options of the option line `text`.
pub fn read_option_line(text: &[u8]) -> (options: Option<FrameOptions>)
    ensures
        options == line_options(text@),
{
    match parse_inline_table(text) {
        None => None,
        Some(entries) => read_frame_options(&entries),
    }
}

} // verus!
