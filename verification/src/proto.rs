//! The binary wire protocol of the LED matrix, and the packed monochrome frame
//! that travels in it.

use crate::animations::IsFrame;
use smallvec::SmallVec;
use vstd::prelude::*;

verus! {

/// Whether `(x, y)` names a pixel of the 9 by 34 display.
pub open spec fn in_grid(x: int, y: int) -> bool {
    0 <= x < 9 && 0 <= y < 34
}

/// Bit `k` of `byte`, counted from the least significant one.
pub open spec fn bit_of(byte: u8, k: u8) -> bool {
    (byte >> k) & 1u8 != 0u8
}

proof fn lemma_bit_set(byte: u8, k: u8, j: u8)
    by (bit_vector)
    requires
        k < 8,
        j < 8,
    ensures
        bit_of(byte | (1u8 << k), j) == (j == k || bit_of(byte, j)),
{
}

proof fn lemma_bit_clear(byte: u8, k: u8, j: u8)
    by (bit_vector)
    requires
        k < 8,
        j < 8,
    ensures
        bit_of(byte & !(1u8 << k), j) == (j != k && bit_of(byte, j)),
{
}

proof fn lemma_bit_or(a: u8, b: u8, j: u8)
    by (bit_vector)
    requires
        j < 8,
    ensures
        bit_of(a | b, j) == (bit_of(a, j) || bit_of(b, j)),
{
}

proof fn lemma_or_laws(a: u8, b: u8)
    by (bit_vector)
    ensures
        a | b == b | a,
        a | a == a,
{
}

proof fn lemma_bit_zero(j: u8)
    by (bit_vector)
    requires
        j < 8,
    ensures
        !bit_of(0u8, j),
{
}

proof fn lemma_bit_outside(byte: u8, k: u8)
    by (bit_vector)
    requires
        k < 2,
    ensures
        (byte | (1u8 << k)) & 0xFCu8 == byte & 0xFCu8,
        (byte & !(1u8 << k)) & 0xFCu8 == byte & 0xFCu8,
{
}

proof fn lemma_or_outside(a: u8, b: u8)
    by (bit_vector)
    requires
        a & 0xFCu8 == 0u8,
        b & 0xFCu8 == 0u8,
    ensures
        (a | b) & 0xFCu8 == 0u8,
{
}

proof fn lemma_zero_outside()
    by (bit_vector)
    ensures
        0u8 & 0xFCu8 == 0u8,
{
}

proof fn lemma_bits_decide(a: u8, b: u8)
    by (bit_vector)
    requires
        bit_of(a, 0) == bit_of(b, 0),
        bit_of(a, 1) == bit_of(b, 1),
        bit_of(a, 2) == bit_of(b, 2) || (a & 0xFCu8 == 0u8 && b & 0xFCu8 == 0u8),
        bit_of(a, 3) == bit_of(b, 3) || (a & 0xFCu8 == 0u8 && b & 0xFCu8 == 0u8),
        bit_of(a, 4) == bit_of(b, 4) || (a & 0xFCu8 == 0u8 && b & 0xFCu8 == 0u8),
        bit_of(a, 5) == bit_of(b, 5) || (a & 0xFCu8 == 0u8 && b & 0xFCu8 == 0u8),
        bit_of(a, 6) == bit_of(b, 6) || (a & 0xFCu8 == 0u8 && b & 0xFCu8 == 0u8),
        bit_of(a, 7) == bit_of(b, 7) || (a & 0xFCu8 == 0u8 && b & 0xFCu8 == 0u8),
    ensures
        a == b,
{
}

proof fn lemma_bit_agrees(a: BwFrame, b: BwFrame, i: int, j: int)
    requires
        0 <= i < 39,
        0 <= j < 8,
        i * 8 + j < 306,
        forall|x: int, y: int| in_grid(x, y) ==> #[trigger] a.pixel(x, y) == b.pixel(x, y),
    ensures
        bit_of(a.0[i], j as u8) == bit_of(b.0[i], j as u8),
{
    let c = i * 8 + j;
    assert(in_grid(c % 9, c / 9));
    assert(a.pixel(c % 9, c / 9) == b.pixel(c % 9, c / 9));
}

/// A monochrome frame: one bit per pixel in 39 bytes. Pixel `(x, y)` is bit
/// `(y * 9 + x) % 8` of byte `(y * 9 + x) / 8`, least significant bit first.
#[derive(Clone, Copy, Debug, PartialEq, Eq)]
pub struct BwFrame(pub [u8; 39]);

impl BwFrame {
    /// Whether the pixel in column `x` of row `y` is lit.
    pub open spec fn pixel(&self, x: int, y: int) -> bool {
        let idx = y * 9 + x;
        bit_of(self.0[idx / 8], (idx % 8) as u8)
    }

    /// Whether the six bits of the last byte that stand for no pixel are zero.
    pub open spec fn tidy(&self) -> bool {
        self.0[38] & 0xFCu8 == 0u8
    }

    /// Whether `merged` is `a` laid over `b`: each of its bytes has the bits of
    /// both.
    pub open spec fn overlay(a: BwFrame, b: BwFrame, merged: BwFrame) -> bool {
        forall|i: int| 0 <= i < 39 ==> merged.0[i] == a.0[i] | b.0[i]
    }

    /// Merging does not depend on the order of the two frames.
    pub proof fn lemma_merge_commutes(a: BwFrame, b: BwFrame, ab: BwFrame, ba: BwFrame)
        requires
            BwFrame::overlay(a, b, ab),
            BwFrame::overlay(b, a, ba),
        ensures
            ab == ba,
    {
        assert forall|i: int| 0 <= i < 39 implies ab.0[i] == ba.0[i] by {
            lemma_or_laws(a.0[i], b.0[i]);
        }
        assert(ab.0 =~= ba.0);
    }

    /// Merging a frame with itself gives the frame back.
    pub proof fn lemma_merge_idempotent(a: BwFrame, aa: BwFrame)
        requires
            BwFrame::overlay(a, a, aa),
        ensures
            aa == a,
    {
        assert forall|i: int| 0 <= i < 39 implies aa.0[i] == a.0[i] by {
            lemma_or_laws(a.0[i], a.0[i]);
        }
        assert(aa.0 =~= a.0);
    }

    /// The frame with every pixel off: all of its bytes are zero.
    pub open spec fn unlit() -> BwFrame {
        BwFrame(vstd::array::spec_array_fill_for_copy_type::<u8, 39>(0u8))
    }

    /// The unlit frame has no lit pixel and no other bit set.
    pub proof fn lemma_unlit()
        ensures
            BwFrame::unlit().tidy(),
            forall|i: int| 0 <= i < 39 ==> #[trigger] BwFrame::unlit().0[i] == 0,
            forall|x: int, y: int| in_grid(x, y) ==> !#[trigger] BwFrame::unlit().pixel(x, y),
    {
        let unlit = BwFrame::unlit();
        lemma_zero_outside();
        assert forall|x: int, y: int| in_grid(x, y) implies !#[trigger] unlit.pixel(x, y) by {
            lemma_bit_zero(((y * 9 + x) % 8) as u8);
        }
    }

    /// The frame with every pixel off.
    pub fn new() -> (frame: Self)
        ensures
            frame == BwFrame::unlit(),
            frame.tidy(),
            forall|i: int| 0 <= i < 39 ==> frame.0[i] == 0,
            forall|x: int, y: int| in_grid(x, y) ==> !frame.pixel(x, y),
    {
        let frame = Self([0; 39]);
        proof {
            BwFrame::lemma_unlit();
            assert(frame.0 =~= BwFrame::unlit().0);
        }
        frame
    }

    /// Overlays two frames: a pixel of the result is lit where it is lit in
    /// either of them.
    pub fn merge(self, other: Self) -> (merged: Self)
        ensures
            BwFrame::overlay(self, other, merged),
            self.tidy() && other.tidy() ==> merged.tidy(),
            forall|x: int, y: int|
                in_grid(x, y) ==> merged.pixel(x, y) == (self.pixel(x, y) || other.pixel(x, y)),
    {
        let mut merged = self;
        let mut idx: usize = 0;
        while idx < 39
            invariant
                idx <= 39,
                forall|i: int| 0 <= i < idx ==> merged.0[i] == self.0[i] | other.0[i],
                forall|i: int| idx <= i < 39 ==> merged.0[i] == self.0[i],
            decreases 39 - idx,
        {
            merged.0[idx] |= other.0[idx];
            idx += 1;
        }
        proof {
            if self.tidy() && other.tidy() {
                lemma_or_outside(self.0[38], other.0[38]);
            }
            assert forall|x: int, y: int| in_grid(x, y) implies merged.pixel(x, y) == (self.pixel(
                x,
                y,
            ) || other.pixel(x, y)) by {
                let c = y * 9 + x;
                lemma_bit_or(self.0[c / 8], other.0[c / 8], (c % 8) as u8);
            }
        }
        merged
    }
}

impl IsFrame for BwFrame {
    type Pixel = bool;

    open spec fn pixel_at(&self, x: int, y: int) -> bool {
        self.pixel(x, y)
    }

    open spec fn dark() -> bool {
        false
    }

    open spec fn settled(&self) -> bool {
        self.tidy()
    }

    proof fn lemma_pixels_decide(a: Self, b: Self) {
        assert forall|x: int, y: int| in_grid(x, y) implies #[trigger] a.pixel(x, y) == b.pixel(
            x,
            y,
        ) by {
            assert(a.pixel_at(x, y) == b.pixel_at(x, y));
        }
        assert forall|i: int| 0 <= i < 39 implies a.0[i] == b.0[i] by {
            lemma_bit_agrees(a, b, i, 0);
            lemma_bit_agrees(a, b, i, 1);
            if i < 38 {
                lemma_bit_agrees(a, b, i, 2);
                lemma_bit_agrees(a, b, i, 3);
                lemma_bit_agrees(a, b, i, 4);
                lemma_bit_agrees(a, b, i, 5);
                lemma_bit_agrees(a, b, i, 6);
                lemma_bit_agrees(a, b, i, 7);
            }
            lemma_bits_decide(a.0[i], b.0[i]);
        }
        assert(a.0 =~= b.0);
    }

    fn blank() -> (frame: Self) {
        BwFrame::new()
    }

    fn get(&self, x: u8, y: u8) -> (lit: bool) {
        if x >= 9 || y >= 34 {
            return false;
        }
        let idx: usize = (y as usize) * 9 + (x as usize);
        ((self.0[idx / 8] >> ((idx % 8) as u8)) & 1) != 0
    }

    fn set(&mut self, x: u8, y: u8, value: bool)
        ensures
            forall|i: int|
                0 <= i < 39 && i != (y * 9 + x) / 8 ==> final(self).0[i] == old(self).0[i],
            in_grid(x as int, y as int) ==> final(self).0[(y * 9 + x) / 8] == if value {
                old(self).0[(y * 9 + x) / 8] | (1u8 << (((y * 9 + x) % 8) as u8))
            } else {
                old(self).0[(y * 9 + x) / 8] & !(1u8 << (((y * 9 + x) % 8) as u8))
            },
    {
        if x >= 9 || y >= 34 {
            return ;
        }
        let idx: usize = (y as usize) * 9 + (x as usize);
        let k: u8 = (idx % 8) as u8;
        let ghost before = *self;
        if value {
            self.0[idx / 8] |= 1u8 << k;
        } else {
            self.0[idx / 8] &= !(1u8 << k);
        }
        proof {
            if idx / 8 == 38 {
                lemma_bit_outside(before.0[38], k);
            }
            assert forall|i: int, j: int| in_grid(i, j) implies #[trigger] self.pixel_at(i, j)
                == (if i == x && j == y {
                value
            } else {
                before.pixel_at(i, j)
            }) by {
                let c = j * 9 + i;
                if c / 8 == idx / 8 {
                    lemma_bit_set(before.0[c / 8], k, (c % 8) as u8);
                    lemma_bit_clear(before.0[c / 8], k, (c % 8) as u8);
                }
            }
        }
    }
}

impl Default for BwFrame {
    fn default() -> (frame: Self)
        ensures
            frame == BwFrame::unlit(),
    {
        Self::new()
    }
}

/// A built-in test pattern of the device.
#[derive(Clone, Copy, Debug, PartialEq, Eq)]
pub enum Pattern {
    Percentage(u8),
    Gradient,
    DoubleGradient,
    LotusHorizontal,
    ZigZag,
    FullBrightness,
    Panic,
    LotusVertical,
}

impl Pattern {
    /// The tag byte of the pattern and, for a percentage, its value.
    pub open spec fn wire(&self) -> Seq<u8> {
        match *self {
            Pattern::Percentage(value) => seq![0u8, value],
            Pattern::Gradient => seq![1u8],
            Pattern::DoubleGradient => seq![2u8],
            Pattern::LotusHorizontal => seq![3u8],
            Pattern::ZigZag => seq![4u8],
            Pattern::FullBrightness => seq![5u8],
            Pattern::Panic => seq![6u8],
            Pattern::LotusVertical => seq![7u8],
        }
    }
}

/// One command of the device protocol.
#[derive(Clone, Copy, Debug, PartialEq, Eq)]
pub enum Command<'a> {
    SetBrightness(u8),
    Pattern(Pattern),
    Bootloader,
    Sleep(u8),
    GetSleep,
    Animate(u8),
    GetAnimate,
    Panic,
    DrawBw(&'a BwFrame),
    StageCol(u8, &'a [u8; 34]),
    FlushCols,
    StartGame(u8),
    GameCtrl(u8),
    GameStatus,
    Version,
}

/// The encoded form of one command, ready to be written to the device. The
/// bytes lie in a `SmallVec` with room for 64 of them inline; what it holds is
/// known by `packet_bytes` alone.
#[verifier::external_body]
pub struct Packet {
    bytes: SmallVec<[u8; 64]>,
}

/// The bytes that a packet holds, first to last.
pub uninterp spec fn packet_bytes(packet: Packet) -> Seq<u8>;

impl View for Packet {
    type V = Seq<u8>;

    open spec fn view(&self) -> Seq<u8> {
        packet_bytes(*self)
    }
}

/// `SmallVec::new`: a buffer that holds nothing.
#[verifier::external_body]
fn packet_new() -> (packet: Packet)
    ensures
        packet_bytes(packet) == Seq::<u8>::empty(),
{
    Packet { bytes: SmallVec::new() }
}

/// `SmallVec::push`: appends one byte at the end and keeps what was there.
/// With fewer than 64 bytes held the byte goes into the inline buffer, so
/// that nothing is allocated.
#[verifier::external_body]
fn packet_push(packet: &mut Packet, byte: u8)
    requires
        packet_bytes(*old(packet)).len() < 64,
    ensures
        packet_bytes(*final(packet)) == packet_bytes(*old(packet)).push(byte),
{
    packet.bytes.push(byte)
}

/// `SmallVec::as_slice`, copied into a vector: the same bytes in the same
/// order.
#[verifier::external_body]
fn packet_to_vec(packet: &Packet) -> (bytes: Vec<u8>)
    ensures
        bytes@ == packet_bytes(*packet),
{
    packet.bytes.as_slice().to_vec()
}

impl Packet {
    /// A copy of the bytes of the packet.
    pub fn to_vec(&self) -> (bytes: Vec<u8>)
        ensures
            bytes@ == self@,
    {
        packet_to_vec(self)
    }
}

impl<'a> Command<'a> {
    /// The opcode and the payload of the command, without the magic prefix.
    pub open spec fn body(&self) -> Seq<u8> {
        match *self {
            Command::SetBrightness(value) => seq![0x00u8, value],
            Command::Pattern(pattern) => seq![0x01u8] + pattern.wire(),
            Command::Bootloader => seq![0x02u8],
            Command::Sleep(value) => seq![0x03u8, value],
            Command::GetSleep => seq![0x03u8],
            Command::Animate(value) => seq![0x04u8, value],
            Command::GetAnimate => seq![0x04u8],
            Command::Panic => seq![0x05u8],
            Command::DrawBw(frame) => seq![0x06u8] + frame.0@,
            Command::StageCol(column, levels) => seq![0x07u8, column] + levels@,
            Command::FlushCols => seq![0x08u8],
            Command::StartGame(value) => seq![0x10u8, value],
            Command::GameCtrl(value) => seq![0x11u8, value],
            Command::GameStatus => seq![0x12u8],
            Command::Version => seq![0x20u8],
        }
    }

    /// The bytes of the command on the wire: the magic value `0x32AC`, high
    /// byte first, then the opcode and the payload.
    pub open spec fn wire(&self) -> Seq<u8> {
        seq![0x32u8, 0xACu8] + self.body()
    }

    /// The number of bytes that the device answers with.
    pub open spec fn reply_len(&self) -> nat {
        match *self {
            Command::GetSleep => 1,
            Command::GetAnimate => 1,
            Command::Version => 3,
            _ => 0,
        }
    }

    /// The number of bytes to read back after the command was written.
    pub fn response_size(&self) -> (size: usize)
        ensures
            size == self.reply_len(),
    {
        match self {
            Command::GetSleep => 1,
            Command::GetAnimate => 1,
            Command::Version => 3,
            _ => 0,
        }
    }

    /// Encodes the command.
    pub fn to_bytes(&self) -> (packet: Packet)
        ensures
            packet@ == self.wire(),
    {
        let mut packet = packet_new();
        packet_push(&mut packet, 0x32);
        packet_push(&mut packet, 0xAC);
        match self {
            Command::SetBrightness(value) => {
                packet_push(&mut packet, 0x00);
                packet_push(&mut packet, *value);
            },
            Command::Pattern(pattern) => {
                packet_push(&mut packet, 0x01);
                match pattern {
                    Pattern::Percentage(value) => {
                        packet_push(&mut packet, 0);
                        packet_push(&mut packet, *value);
                    },
                    Pattern::Gradient => packet_push(&mut packet, 1),
                    Pattern::DoubleGradient => packet_push(&mut packet, 2),
                    Pattern::LotusHorizontal => packet_push(&mut packet, 3),
                    Pattern::ZigZag => packet_push(&mut packet, 4),
                    Pattern::FullBrightness => packet_push(&mut packet, 5),
                    Pattern::Panic => packet_push(&mut packet, 6),
                    Pattern::LotusVertical => packet_push(&mut packet, 7),
                }
            },
            Command::Bootloader => packet_push(&mut packet, 0x02),
            Command::Sleep(value) => {
                packet_push(&mut packet, 0x03);
                packet_push(&mut packet, *value);
            },
            Command::GetSleep => packet_push(&mut packet, 0x03),
            Command::Animate(value) => {
                packet_push(&mut packet, 0x04);
                packet_push(&mut packet, *value);
            },
            Command::GetAnimate => packet_push(&mut packet, 0x04),
            Command::Panic => packet_push(&mut packet, 0x05),
            Command::DrawBw(frame) => {
                packet_push(&mut packet, 0x06);
                let mut idx: usize = 0;
                while idx < 39
                    invariant
                        idx <= 39,
                        packet@ == seq![0x32u8, 0xACu8, 0x06u8] + frame.0@.subrange(0, idx as int),
                    decreases 39 - idx,
                {
                    packet_push(&mut packet, frame.0[idx]);
                    idx += 1;
                }
                assert(frame.0@.subrange(0, 39) == frame.0@);
            },
            Command::StageCol(column, levels) => {
                packet_push(&mut packet, 0x07);
                packet_push(&mut packet, *column);
                let mut idx: usize = 0;
                while idx < 34
                    invariant
                        idx <= 34,
                        packet@ == seq![0x32u8, 0xACu8, 0x07u8, *column] + levels@.subrange(
                            0,
                            idx as int,
                        ),
                    decreases 34 - idx,
                {
                    packet_push(&mut packet, levels[idx]);
                    idx += 1;
                }
                assert(levels@.subrange(0, 34) == levels@);
            },
            Command::FlushCols => packet_push(&mut packet, 0x08),
            Command::StartGame(value) => {
                packet_push(&mut packet, 0x10);
                packet_push(&mut packet, *value);
            },
            Command::GameCtrl(value) => {
                packet_push(&mut packet, 0x11);
                packet_push(&mut packet, *value);
            },
            Command::GameStatus => packet_push(&mut packet, 0x12),
            Command::Version => packet_push(&mut packet, 0x20),
        }
        packet
    }
}

} // verus!
