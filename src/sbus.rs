use vstd::prelude::*;

verus! {

/// Number of bytes before the header.
pub const PACKET_PADDING_SIZE: usize = 0;
/// Number of header bytes.
pub const PACKET_HEADER_SIZE: usize = 1;
/// Number of footer bytes.
pub const PACKET_FOOTER_SIZE: usize = 1;
/// Channel payload plus the flag byte.
pub const PACKET_DATA_SIZE: usize = 23;
/// Length of one whole frame on the wire.
pub const PACKET_SIZE: usize = PACKET_PADDING_SIZE + PACKET_HEADER_SIZE + PACKET_DATA_SIZE
    + PACKET_FOOTER_SIZE;
/// The value every frame starts with.
pub const PACKET_HEADER: u8 = 0x0F;
/// The value every frame ends with.
pub const PACKET_FOOTER: u8 = 0x00;
/// Mask keeping the low eleven bits of a channel.
pub const BIT_MASK: u16 = 0x7FF;

/// One proportional channel: an eleven-bit unsigned value.
#[derive(Clone, Copy, Debug, PartialEq, Eq, Structural, PartialOrd, Ord, Hash)]
pub struct Chan(u16);

impl View for Chan {
    type V = u16;

    closed spec fn view(&self) -> u16 {
        self.0
    }
}

impl Chan {
    #[verifier::type_invariant]
    spec fn inv(self) -> bool {
        self.0 <= 0x7FF
    }

    /// Keeps the low eleven bits of `val`; out-of-range input is truncated.
    pub fn new(val: u16) -> (r: Self)
        ensures
            r@ == val & 0x7FF,
    {
        let v = val & BIT_MASK;
        assert(v <= 0x7FF) by (bit_vector)
            requires
                v == val & 0x7FF,
        ;
        Chan(v)
    }

    pub fn get(&self) -> (r: u16)
        ensures
            r == self@,
            r <= 0x7FF,
    {
        proof {
            use_type_invariant(self);
        }
        self.0
    }
}

impl Default for Chan {
    fn default() -> (r: Self)
        ensures
            r@ == 0,
    {
        Chan(0)
    }
}

/// Same as [`Chan::new`].
pub fn chan(val: u16) -> (r: Chan)
    ensures
        r@ == val & 0x7FF,
{
    Chan::new(val)
}

/// Byte `k` of `g`, or zero past either end of `g`.
pub open spec fn byte_or_zero(g: Seq<u8>, k: int) -> u32 {
    if 0 <= k < g.len() {
        g[k] as u32
    } else {
        0
    }
}

/// The three bytes of `g` starting at `k`, read as one little-endian word.
pub open spec fn window(g: Seq<u8>, k: int) -> u32 {
    byte_or_zero(g, k) | (byte_or_zero(g, k + 1) << 8u32) | (byte_or_zero(g, k + 2) << 16u32)
}

/// Channel `i` of an eleven-byte group: bits `[11 * i, 11 * i + 11)` of the
/// group read as a little-endian bit stream. Those bits start in byte
/// `11 * i / 8`, at bit `11 * i % 8`, and end at most two bytes later.
pub open spec fn group_chan(g: Seq<u8>, i: int) -> u16 {
    ((window(g, (11 * i) / 8) >> (((11 * i) % 8) as u32)) & 0x7FF) as u16
}

/// The payload group of a frame that holds channel `i`: bytes 1 to 11 for
/// channels 0 to 7, bytes 12 to 22 for channels 8 to 15.
pub open spec fn frame_group(p: Seq<u8>, i: int) -> Seq<u8> {
    p.subrange(1 + 11 * (i / 8), 12 + 11 * (i / 8))
}

/// Channel `i` (0 to 15) as packed in frame `p`.
pub open spec fn frame_chan(p: Seq<u8>, i: int) -> u16 {
    group_chan(frame_group(p, i), i % 8)
}

/// Flag bit `b` of the flag byte of frame `p`.
pub open spec fn frame_flag(p: Seq<u8>, b: u8) -> bool {
    p[23] & (1u8 << b) != 0
}

/// Channel 0 of a group, as the unpacker computes it, is bits 0 to 10 of
/// the group's bit stream.
proof fn lemma_chan0(b0: u8, b1: u8, b2: u8) by (bit_vector)
    ensures
        (((b1 as u16) << 8u16 | (b0 as u16)) & 0x7FF)
            == (((((b0 as u32)
            | ((b1 as u32) << 8u32)
            | ((b2 as u32) << 16u32)) >> 0u32) & 0x7FF) as u16),
{
}

/// Channel 1 of a group, as the unpacker computes it, is bits 11 to 21 of
/// the group's bit stream.
proof fn lemma_chan1(b1: u8, b2: u8, b3: u8) by (bit_vector)
    ensures
        (((b2 as u16) << 5u16 | (b1 as u16) >> 3u16) & 0x7FF)
            == (((((b1 as u32)
            | ((b2 as u32) << 8u32)
            | ((b3 as u32) << 16u32)) >> 3u32) & 0x7FF) as u16),
{
}

/// Channel 2 of a group, as the unpacker computes it, is bits 22 to 32 of
/// the group's bit stream.
proof fn lemma_chan2(b2: u8, b3: u8, b4: u8) by (bit_vector)
    ensures
        (((b4 as u16) << 10u16 | (b3 as u16) << 2u16 | (b2 as u16) >> 6u16) & 0x7FF)
            == (((((b2 as u32)
            | ((b3 as u32) << 8u32)
            | ((b4 as u32) << 16u32)) >> 6u32) & 0x7FF) as u16),
{
}

/// Channel 3 of a group, as the unpacker computes it, is bits 33 to 43 of
/// the group's bit stream.
proof fn lemma_chan3(b4: u8, b5: u8, b6: u8) by (bit_vector)
    ensures
        (((b5 as u16) << 7u16 | (b4 as u16) >> 1u16) & 0x7FF)
            == (((((b4 as u32)
            | ((b5 as u32) << 8u32)
            | ((b6 as u32) << 16u32)) >> 1u32) & 0x7FF) as u16),
{
}

/// Channel 4 of a group, as the unpacker computes it, is bits 44 to 54 of
/// the group's bit stream.
proof fn lemma_chan4(b5: u8, b6: u8, b7: u8) by (bit_vector)
    ensures
        (((b6 as u16) << 4u16 | (b5 as u16) >> 4u16) & 0x7FF)
            == (((((b5 as u32)
            | ((b6 as u32) << 8u32)
            | ((b7 as u32) << 16u32)) >> 4u32) & 0x7FF) as u16),
{
}

/// Channel 5 of a group, as the unpacker computes it, is bits 55 to 65 of
/// the group's bit stream.
proof fn lemma_chan5(b6: u8, b7: u8, b8: u8) by (bit_vector)
    ensures
        (((b8 as u16) << 9u16 | (b7 as u16) << 1u16 | (b6 as u16) >> 7u16) & 0x7FF)
            == (((((b6 as u32)
            | ((b7 as u32) << 8u32)
            | ((b8 as u32) << 16u32)) >> 7u32) & 0x7FF) as u16),
{
}

/// Channel 6 of a group, as the unpacker computes it, is bits 66 to 76 of
/// the group's bit stream.
proof fn lemma_chan6(b8: u8, b9: u8, b10: u8) by (bit_vector)
    ensures
        (((b9 as u16) << 6u16 | (b8 as u16) >> 2u16) & 0x7FF)
            == (((((b8 as u32)
            | ((b9 as u32) << 8u32)
            | ((b10 as u32) << 16u32)) >> 2u32) & 0x7FF) as u16),
{
}

/// Channel 7 of a group, as the unpacker computes it, is bits 77 to 87 of
/// the group's bit stream.
proof fn lemma_chan7(b9: u8, b10: u8) by (bit_vector)
    ensures
        (((b10 as u16) << 3u16 | (b9 as u16) >> 5u16) & 0x7FF)
            == (((((b9 as u32)
            | ((b10 as u32) << 8u32)
            | (0u32 << 16u32)) >> 5u32) & 0x7FF) as u16),
{
}

/// Byte `i` of the first payload group.
fn idx(i: usize, packet: &[u8]) -> (r: u16)
    requires
        i < 11,
        packet@.len() > PACKET_HEADER_SIZE + i,
    ensures
        r == packet@[1 + i] as u16,
{
    packet[PACKET_PADDING_SIZE + PACKET_HEADER_SIZE + i] as u16
}

/// Byte `i` of the second payload group.
fn idx11(i: usize, packet: &[u8]) -> (r: u16)
    requires
        i < 11,
        packet@.len() > PACKET_HEADER_SIZE + 11 + i,
    ensures
        r == packet@[12 + i] as u16,
{
    packet[PACKET_PADDING_SIZE + PACKET_HEADER_SIZE + 11 + i] as u16
}

/// The group of eight channels packed in `g`.
proof fn lemma_group(g: Seq<u8>)
    requires
        g.len() == 11,
    ensures
        group_chan(g, 0) == ((g[1] as u16) << 8u16 | (g[0] as u16)) & 0x7FF,
        group_chan(g, 1) == ((g[2] as u16) << 5u16 | (g[1] as u16) >> 3u16) & 0x7FF,
        group_chan(g, 2) == ((g[4] as u16) << 10u16 | (g[3] as u16) << 2u16 | (g[2] as u16) >> 6u16)
            & 0x7FF,
        group_chan(g, 3) == ((g[5] as u16) << 7u16 | (g[4] as u16) >> 1u16) & 0x7FF,
        group_chan(g, 4) == ((g[6] as u16) << 4u16 | (g[5] as u16) >> 4u16) & 0x7FF,
        group_chan(g, 5) == ((g[8] as u16) << 9u16 | (g[7] as u16) << 1u16 | (g[6] as u16) >> 7u16)
            & 0x7FF,
        group_chan(g, 6) == ((g[9] as u16) << 6u16 | (g[8] as u16) >> 2u16) & 0x7FF,
        group_chan(g, 7) == ((g[10] as u16) << 3u16 | (g[9] as u16) >> 5u16) & 0x7FF,
{
    lemma_chan0(g[0], g[1], g[2]);
    lemma_chan1(g[1], g[2], g[3]);
    lemma_chan2(g[2], g[3], g[4]);
    lemma_chan3(g[4], g[5], g[6]);
    lemma_chan4(g[5], g[6], g[7]);
    lemma_chan5(g[6], g[7], g[8]);
    lemma_chan6(g[8], g[9], g[10]);
    lemma_chan7(g[9], g[10]);
}

/// Unpacks the sixteen channels of a frame.
pub fn read_chans(packet: &[u8]) -> (r: [Chan; 16])
    requires
        packet@.len() >= 23,
    ensures
        forall|i: int| 0 <= i < 16 ==> (#[trigger] r@[i])@ == frame_chan(packet@, i),
{
    let p = packet;
    let r = [
        chan(idx(1, p) << 8 | idx(0, p)),
        chan(idx(2, p) << 5 | idx(1, p) >> 3),
        chan(idx(4, p) << 10 | idx(3, p) << 2 | idx(2, p) >> 6),
        chan(idx(5, p) << 7 | idx(4, p) >> 1),
        chan(idx(6, p) << 4 | idx(5, p) >> 4),
        chan(idx(8, p) << 9 | idx(7, p) << 1 | idx(6, p) >> 7),
        chan(idx(9, p) << 6 | idx(8, p) >> 2),
        chan(idx(10, p) << 3 | idx(9, p) >> 5),
        // the second group is packed as the first, eleven bytes later
        chan(idx11(1, p) << 8 | idx11(0, p)),
        chan(idx11(2, p) << 5 | idx11(1, p) >> 3),
        chan(idx11(4, p) << 10 | idx11(3, p) << 2 | idx11(2, p) >> 6),
        chan(idx11(5, p) << 7 | idx11(4, p) >> 1),
        chan(idx11(6, p) << 4 | idx11(5, p) >> 4),
        chan(idx11(8, p) << 9 | idx11(7, p) << 1 | idx11(6, p) >> 7),
        chan(idx11(9, p) << 6 | idx11(8, p) >> 2),
        chan(idx11(10, p) << 3 | idx11(9, p) >> 5),
    ];
    proof {
        let ga = frame_group(packet@, 0);
        let gb = frame_group(packet@, 8);
        lemma_group(ga);
        lemma_group(gb);
        assert forall|i: int| 0 <= i < 16 implies (#[trigger] r@[i])@ == frame_chan(packet@, i) by {
            if i < 8 {
                assert(frame_group(packet@, i) == ga);
            } else {
                assert(frame_group(packet@, i) == gb);
            }
        }
    }
    r
}

/// One decoded frame: sixteen channels and four status flags.
#[derive(Clone, Copy, Debug, PartialEq, Eq, PartialOrd, Ord, Hash, Default)]
pub struct Data {
    pub channels: [Chan; 16],
    pub ch_17: bool,
    pub ch_18: bool,
    pub frame_lost: bool,
    pub failsafe: bool,
}

impl Data {
    /// `self` is what frame `p` encodes.
    pub open spec fn decodes(self, p: Seq<u8>) -> bool {
        &&& forall|i: int| 0 <= i < 16 ==> (#[trigger] self.channels@[i])@ == frame_chan(p, i)
        &&& self.ch_17 == frame_flag(p, 0)
        &&& self.ch_18 == frame_flag(p, 1)
        &&& self.frame_lost == frame_flag(p, 2)
        &&& self.failsafe == frame_flag(p, 3)
    }

    /// Decodes the channels and the flag byte of a whole frame. Header and
    /// footer are not looked at.
    pub fn from_packet(packet: &[u8; PACKET_SIZE]) -> (r: Self)
        ensures
            r.decodes(packet@),
    {
        let flag_byte = packet[PACKET_SIZE - 2];
        assert(flag_byte & 0b1 == flag_byte & (1u8 << 0u8)) by (bit_vector);
        assert(flag_byte & 0b10 == flag_byte & (1u8 << 1u8)) by (bit_vector);
        assert(flag_byte & 0b100 == flag_byte & (1u8 << 2u8)) by (bit_vector);
        assert(flag_byte & 0b1000 == flag_byte & (1u8 << 3u8)) by (bit_vector);
        Self {
            channels: read_chans(packet.as_slice()),
            ch_17: (flag_byte & 0b1) > 0,
            ch_18: (flag_byte & 0b10) > 0,
            frame_lost: (flag_byte & 0b100) > 0,
            failsafe: (flag_byte & 0b1000) > 0,
        }
    }
}

/// What the accumulated bytes take, after `bytes` arrive, given room for
/// `PACKET_SIZE` bytes in all: as many of `bytes` as still fit.
pub open spec fn ingest_spec(v: Seq<u8>, bytes: Seq<u8>) -> Seq<u8> {
    let room = PACKET_SIZE - v.len();
    if bytes.len() <= room {
        v + bytes
    } else {
        v + bytes.take(room)
    }
}

/// The accumulated bytes after an attempt to take a frame out of `v`: a
/// full window is emptied, whether or not it held a frame.
pub open spec fn after_decode(v: Seq<u8>) -> Seq<u8> {
    if v.len() < PACKET_SIZE {
        v
    } else {
        Seq::empty()
    }
}

/// The accumulated bytes after the pieces `chunks` arrive one after the
/// other, starting from `v`.
pub open spec fn feed(v: Seq<u8>, chunks: Seq<Seq<u8>>) -> Seq<u8>
    decreases chunks.len(),
{
    if chunks.len() == 0 {
        v
    } else {
        ingest_spec(feed(v, chunks.drop_last()), chunks.last())
    }
}

/// The result of one attempt to take a frame out of a [`Receiver`].
#[derive(Clone, Copy, Debug, PartialEq, Eq)]
pub enum Outcome {
    /// Fewer than `PACKET_SIZE` bytes have arrived; nothing changed.
    NotReady,
    /// A full window whose first byte is not the header; it was discarded.
    HeaderMismatch,
    /// A full window whose last byte is not the footer; it was discarded.
    FooterMismatch,
    /// A full, well-framed window, decoded; the window was emptied.
    Frame(Data),
}

impl Outcome {
    /// `self` is what an attempt on the accumulated bytes `v` reports.
    pub open spec fn reports(self, v: Seq<u8>) -> bool {
        if v.len() < PACKET_SIZE {
            self is NotReady
        } else if v[0] != PACKET_HEADER {
            self is HeaderMismatch
        } else if v[24] != PACKET_FOOTER {
            self is FooterMismatch
        } else {
            match self {
                Outcome::Frame(d) => d.decodes(v),
                _ => false,
            }
        }
    }
}

/// Accumulates the bytes of one frame as they arrive.
#[derive(Debug)]
pub struct Receiver {
    packet: [u8; PACKET_SIZE],
    size: usize,
}

impl View for Receiver {
    /// The bytes accumulated so far.
    type V = Seq<u8>;

    closed spec fn view(&self) -> Seq<u8> {
        self.packet@.subrange(0, self.size as int)
    }
}

impl Receiver {
    /// The fill count never exceeds the buffer.
    pub closed spec fn wf(self) -> bool {
        self.size <= PACKET_SIZE
    }

    /// The whole buffer, stale bytes past the fill count included.
    pub closed spec fn buffer(self) -> Seq<u8> {
        self.packet@
    }

    /// The fill count.
    pub closed spec fn fill(self) -> nat {
        self.size as nat
    }

    /// An empty receiver.
    pub fn new() -> (r: Self)
        ensures
            r.wf(),
            r@ == Seq::<u8>::empty(),
            r.buffer() == Seq::new(PACKET_SIZE as nat, |i: int| 0u8),
    {
        let r = Self { packet: [0u8; PACKET_SIZE], size: 0 };
        assert(r.packet@ =~= Seq::new(PACKET_SIZE as nat, |i: int| 0u8));
        assert(r@ =~= Seq::<u8>::empty());
        r
    }

    /// The part of the buffer past the fill count, for a reader to write
    /// arriving bytes into. [`Receiver::read_bytes`] then counts them in.
    pub fn free_buf(&mut self) -> (r: &mut [u8])
        requires
            old(self).wf(),
        ensures
            final(self).wf(),
            final(self).fill() == old(self).fill(),
            final(self)@ == old(self)@,
            r@.len() == PACKET_SIZE - old(self).fill(),
            final(self).buffer() == old(self)@ + final(r)@,
    {
        let size = self.size;
        let (_, tail) = self.packet.split_at_mut(size);
        tail
    }

    /// Counts in `count` bytes that a reader wrote through
    /// [`Receiver::free_buf`].
    pub fn read_bytes(&mut self, count: usize)
        requires
            old(self).wf(),
            old(self).fill() + count <= PACKET_SIZE,
        ensures
            final(self).wf(),
            final(self).buffer() == old(self).buffer(),
            final(self).fill() == old(self).fill() + count,
    {
        self.size += count
    }

    /// Empties the buffer and zeroes its bytes.
    pub fn reset(&mut self)
        requires
            old(self).wf(),
        ensures
            final(self).wf(),
            final(self)@ == Seq::<u8>::empty(),
            final(self).buffer() == Seq::new(PACKET_SIZE as nat, |i: int| 0u8),
    {
        let mut i: usize = 0;
        while i < PACKET_SIZE
            invariant
                i <= PACKET_SIZE,
                forall|j: int| 0 <= j < i ==> self.packet@[j] == 0u8,
            decreases PACKET_SIZE - i,
        {
            self.packet[i] = 0;
            i += 1;
        }
        self.size = 0;
        assert(self.packet@ =~= Seq::new(PACKET_SIZE as nat, |i: int| 0u8));
        assert(self@ =~= Seq::<u8>::empty());
    }

    /// Appends as many of `bytes` as there is room for, and returns how many
    /// that was. Bytes past the room are left to the caller.
    pub fn ingest(&mut self, bytes: &[u8]) -> (n: usize)
        requires
            old(self).wf(),
        ensures
            final(self).wf(),
            n as int == if bytes@.len() <= PACKET_SIZE - old(self)@.len() {
                bytes@.len() as int
            } else {
                PACKET_SIZE - old(self)@.len()
            },
            final(self)@ == ingest_spec(old(self)@, bytes@),
    {
        let size = self.size;
        let room = PACKET_SIZE - size;
        let n = if bytes.len() <= room {
            bytes.len()
        } else {
            room
        };
        let mut i: usize = 0;
        while i < n
            invariant
                self.size == size,
                old(self)@.len() == size,
                size + n <= PACKET_SIZE,
                n <= bytes@.len(),
                i <= n,
                self.packet@.subrange(0, size + i) == old(self)@ + bytes@.take(i as int),
            decreases n - i,
        {
            self.packet[size + i] = bytes[i];
            assert(self.packet@.subrange(0, size + i) =~= old(self)@ + bytes@.take(i as int));
            assert(self.packet@.subrange(0, size + i + 1) =~= old(self)@ + bytes@.take(i + 1));
            i += 1;
        }
        self.size = size + n;
        assert(bytes@.take(bytes@.len() as int) =~= bytes@);
        n
    }

    /// Takes a frame out of a full window: decodes it when it is framed by
    /// the header and the footer, and discards it either way. A window that
    /// is not yet full is left as it is.
    pub fn try_decode(&mut self) -> (r: Outcome)
        requires
            old(self).wf(),
        ensures
            final(self).wf(),
            r.reports(old(self)@),
            final(self)@ == after_decode(old(self)@),
            old(self)@.len() < PACKET_SIZE ==> *final(self) == *old(self),
    {
        if self.size < PACKET_SIZE {
            return Outcome::NotReady;
        }
        assert(self@ =~= self.packet@);
        if self.packet[0] != PACKET_HEADER {
            self.reset();
            return Outcome::HeaderMismatch;
        }
        if self.packet[PACKET_SIZE - 1] != PACKET_FOOTER {
            self.reset();
            return Outcome::FooterMismatch;
        }
        let data = Data::from_packet(&self.packet);
        self.reset();
        Outcome::Frame(data)
    }

    /// [`Receiver::try_decode`], with a frame as `Some` and every other
    /// outcome as `None`.
    pub fn get_data(&mut self) -> (r: Option<Data>)
        requires
            old(self).wf(),
        ensures
            final(self).wf(),
            match r {
                Some(d) => Outcome::Frame(d).reports(old(self)@),
                None => old(self)@.len() < PACKET_SIZE || old(self)@[0] != PACKET_HEADER
                    || old(self)@[24] != PACKET_FOOTER,
            },
            old(self)@.len() < PACKET_SIZE ==> *final(self) == *old(self),
            old(self)@.len() == PACKET_SIZE ==> final(self)@ == Seq::<u8>::empty(),
    {
        match self.try_decode() {
            Outcome::Frame(data) => Some(data),
            _ => None,
        }
    }
}


/// Channels `c` (eight of them) packed into an eleven-byte group: channel `i`
/// fills bits `[11 * i, 11 * i + 11)` of the group read as a little-endian bit
/// stream, so each byte holds the bits of the channels it overlaps.
pub open spec fn pack_group(c: Seq<u16>) -> Seq<u8> {
    seq![
        ((c[0]) as u8),
        (((c[0] >> 8u16) | (c[1] << 3u16)) as u8),
        (((c[1] >> 5u16) | (c[2] << 6u16)) as u8),
        ((c[2] >> 2u16) as u8),
        (((c[2] >> 10u16) | (c[3] << 1u16)) as u8),
        (((c[3] >> 7u16) | (c[4] << 4u16)) as u8),
        (((c[4] >> 4u16) | (c[5] << 7u16)) as u8),
        ((c[5] >> 1u16) as u8),
        (((c[5] >> 9u16) | (c[6] << 2u16)) as u8),
        (((c[6] >> 6u16) | (c[7] << 5u16)) as u8),
        ((c[7] >> 3u16) as u8),
    ]
}

/// A well-framed frame that carries channels `c` (sixteen of them) and the
/// flag byte `flag`.
pub open spec fn pack_frame(c: Seq<u16>, flag: u8) -> Seq<u8> {
    seq![PACKET_HEADER] + pack_group(c.take(8)) + pack_group(c.skip(8)) + seq![flag, PACKET_FOOTER]
}

/// Channel 0 reads back from the bytes it was packed into.
proof fn lemma_pack0(c0: u16, c1: u16, c2: u16) by (bit_vector)
    requires
        c0 <= 0x7FF,
        c1 <= 0x7FF,
        c2 <= 0x7FF,
    ensures
        ((((c0) as u8 as u32)
            | ((((c0 >> 8u16) | (c1 << 3u16)) as u8 as u32) << 8u32)
            | ((((c1 >> 5u16) | (c2 << 6u16)) as u8 as u32) << 16u32)) >> 0u32) & 0x7FF
            == c0 as u32,
{
}

/// Channel 1 reads back from the bytes it was packed into.
proof fn lemma_pack1(c0: u16, c1: u16, c2: u16) by (bit_vector)
    requires
        c0 <= 0x7FF,
        c1 <= 0x7FF,
        c2 <= 0x7FF,
    ensures
        (((((c0 >> 8u16) | (c1 << 3u16)) as u8 as u32)
            | ((((c1 >> 5u16) | (c2 << 6u16)) as u8 as u32) << 8u32)
            | (((c2 >> 2u16) as u8 as u32) << 16u32)) >> 3u32) & 0x7FF
            == c1 as u32,
{
}

/// Channel 2 reads back from the bytes it was packed into.
proof fn lemma_pack2(c1: u16, c2: u16, c3: u16) by (bit_vector)
    requires
        c1 <= 0x7FF,
        c2 <= 0x7FF,
        c3 <= 0x7FF,
    ensures
        (((((c1 >> 5u16) | (c2 << 6u16)) as u8 as u32)
            | (((c2 >> 2u16) as u8 as u32) << 8u32)
            | ((((c2 >> 10u16) | (c3 << 1u16)) as u8 as u32) << 16u32)) >> 6u32) & 0x7FF
            == c2 as u32,
{
}

/// Channel 3 reads back from the bytes it was packed into.
proof fn lemma_pack3(c2: u16, c3: u16, c4: u16, c5: u16) by (bit_vector)
    requires
        c2 <= 0x7FF,
        c3 <= 0x7FF,
        c4 <= 0x7FF,
        c5 <= 0x7FF,
    ensures
        (((((c2 >> 10u16) | (c3 << 1u16)) as u8 as u32)
            | ((((c3 >> 7u16) | (c4 << 4u16)) as u8 as u32) << 8u32)
            | ((((c4 >> 4u16) | (c5 << 7u16)) as u8 as u32) << 16u32)) >> 1u32) & 0x7FF
            == c3 as u32,
{
}

/// Channel 4 reads back from the bytes it was packed into.
proof fn lemma_pack4(c3: u16, c4: u16, c5: u16) by (bit_vector)
    requires
        c3 <= 0x7FF,
        c4 <= 0x7FF,
        c5 <= 0x7FF,
    ensures
        (((((c3 >> 7u16) | (c4 << 4u16)) as u8 as u32)
            | ((((c4 >> 4u16) | (c5 << 7u16)) as u8 as u32) << 8u32)
            | (((c5 >> 1u16) as u8 as u32) << 16u32)) >> 4u32) & 0x7FF
            == c4 as u32,
{
}

/// Channel 5 reads back from the bytes it was packed into.
proof fn lemma_pack5(c4: u16, c5: u16, c6: u16) by (bit_vector)
    requires
        c4 <= 0x7FF,
        c5 <= 0x7FF,
        c6 <= 0x7FF,
    ensures
        (((((c4 >> 4u16) | (c5 << 7u16)) as u8 as u32)
            | (((c5 >> 1u16) as u8 as u32) << 8u32)
            | ((((c5 >> 9u16) | (c6 << 2u16)) as u8 as u32) << 16u32)) >> 7u32) & 0x7FF
            == c5 as u32,
{
}

/// Channel 6 reads back from the bytes it was packed into.
proof fn lemma_pack6(c5: u16, c6: u16, c7: u16) by (bit_vector)
    requires
        c5 <= 0x7FF,
        c6 <= 0x7FF,
        c7 <= 0x7FF,
    ensures
        (((((c5 >> 9u16) | (c6 << 2u16)) as u8 as u32)
            | ((((c6 >> 6u16) | (c7 << 5u16)) as u8 as u32) << 8u32)
            | (((c7 >> 3u16) as u8 as u32) << 16u32)) >> 2u32) & 0x7FF
            == c6 as u32,
{
}

/// Channel 7 reads back from the bytes it was packed into.
proof fn lemma_pack7(c6: u16, c7: u16) by (bit_vector)
    requires
        c6 <= 0x7FF,
        c7 <= 0x7FF,
    ensures
        (((((c6 >> 6u16) | (c7 << 5u16)) as u8 as u32)
            | (((c7 >> 3u16) as u8 as u32) << 8u32)
            | (0u32 << 16u32)) >> 5u32) & 0x7FF
            == c7 as u32,
{
}

/// Each channel of a packed group reads back as it was packed.
proof fn lemma_group_round_trip(c: Seq<u16>)
    requires
        c.len() == 8,
        forall|i: int| 0 <= i < 8 ==> #[trigger] c[i] <= 0x7FF,
    ensures
        pack_group(c).len() == 11,
        forall|i: int| 0 <= i < 8 ==> #[trigger] group_chan(pack_group(c), i) == c[i],
{
    let g = pack_group(c);
    assert(c[0] <= 0x7FF && c[1] <= 0x7FF && c[2] <= 0x7FF && c[3] <= 0x7FF);
    assert(c[4] <= 0x7FF && c[5] <= 0x7FF && c[6] <= 0x7FF && c[7] <= 0x7FF);
    lemma_pack0(c[0], c[1], c[2]);
    lemma_pack1(c[0], c[1], c[2]);
    lemma_pack2(c[1], c[2], c[3]);
    lemma_pack3(c[2], c[3], c[4], c[5]);
    lemma_pack4(c[3], c[4], c[5]);
    lemma_pack5(c[4], c[5], c[6]);
    lemma_pack6(c[5], c[6], c[7]);
    lemma_pack7(c[6], c[7]);
    assert(group_chan(g, 0) == c[0]);
    assert(group_chan(g, 1) == c[1]);
    assert(group_chan(g, 2) == c[2]);
    assert(group_chan(g, 3) == c[3]);
    assert(group_chan(g, 4) == c[4]);
    assert(group_chan(g, 5) == c[5]);
    assert(group_chan(g, 6) == c[6]);
    assert(group_chan(g, 7) == c[7]);
}

/// Both halves of sixteen eleven-bit channels are eight eleven-bit channels.
proof fn lemma_channel_halves(c: Seq<u16>)
    requires
        c.len() == 16,
        forall|i: int| 0 <= i < 16 ==> #[trigger] c[i] <= 0x7FF,
    ensures
        c.take(8).len() == 8,
        c.skip(8).len() == 8,
        forall|i: int| 0 <= i < 8 ==> #[trigger] c.take(8)[i] <= 0x7FF,
        forall|i: int| 0 <= i < 8 ==> #[trigger] c.skip(8)[i] <= 0x7FF,
        forall|i: int| 0 <= i < 8 ==> #[trigger] c.take(8)[i] == c[i],
        forall|i: int| 0 <= i < 8 ==> #[trigger] c.skip(8)[i] == c[i + 8],
{
    assert forall|i: int| 0 <= i < 8 implies #[trigger] c.skip(8)[i] <= 0x7FF by {
        assert(c.skip(8)[i] == c[i + 8]);
    }
}

/// Where the header, the two payload groups, the flag byte and the footer
/// stand in a packed frame.
proof fn lemma_frame_layout(c: Seq<u16>, flag: u8)
    ensures
        pack_frame(c, flag).len() == PACKET_SIZE,
        pack_frame(c, flag)[0] == PACKET_HEADER,
        pack_frame(c, flag)[23] == flag,
        pack_frame(c, flag)[24] == PACKET_FOOTER,
        frame_group(pack_frame(c, flag), 0) == pack_group(c.take(8)),
        frame_group(pack_frame(c, flag), 8) == pack_group(c.skip(8)),
{
    let f = pack_frame(c, flag);
    assert(frame_group(f, 0) =~= pack_group(c.take(8)));
    assert(frame_group(f, 8) =~= pack_group(c.skip(8)));
}

/// `o` is a decoded frame whose channels are `c`.
pub open spec fn carries(o: Outcome, c: Seq<u16>) -> bool {
    match o {
        Outcome::Frame(d) => forall|i: int| 0 <= i < 16 ==> (#[trigger] d.channels@[i])@ == c[i],
        _ => false,
    }
}

/// Packing sixteen eleven-bit channels into a well-framed frame and decoding
/// it gives back exactly those channels, and the flag byte as packed,
/// whatever that flag byte is.
pub proof fn lemma_round_trip(c: Seq<u16>, flag: u8)
    requires
        c.len() == 16,
        forall|i: int| 0 <= i < 16 ==> #[trigger] c[i] <= 0x7FF,
    ensures
        pack_frame(c, flag).len() == PACKET_SIZE,
        pack_frame(c, flag)[0] == PACKET_HEADER,
        pack_frame(c, flag)[23] == flag,
        pack_frame(c, flag)[24] == PACKET_FOOTER,
        forall|i: int| 0 <= i < 16 ==> #[trigger] frame_chan(pack_frame(c, flag), i) == c[i],
        forall|o: Outcome| #[trigger] o.reports(pack_frame(c, flag)) ==> carries(o, c),
{
    let f = pack_frame(c, flag);
    let a = c.take(8);
    let b = c.skip(8);
    lemma_channel_halves(c);
    lemma_group_round_trip(a);
    lemma_group_round_trip(b);
    lemma_frame_layout(c, flag);
    assert forall|i: int| 0 <= i < 16 implies #[trigger] frame_chan(f, i) == c[i] by {
        if i < 8 {
            assert(frame_group(f, i) == pack_group(a));
            assert(group_chan(pack_group(a), i % 8) == a[i]);
        } else {
            assert(frame_group(f, i) == pack_group(b));
            assert(group_chan(pack_group(b), i % 8) == b[i - 8]);
        }
    }
    assert forall|o: Outcome| #[trigger] o.reports(f) implies carries(o, c) by {
        if let Outcome::Frame(d) = o {
            assert forall|i: int| 0 <= i < 16 implies (#[trigger] d.channels@[i])@ == c[i] by {
                assert(frame_chan(f, i) == c[i]);
            }
        }
    }
}

/// Pieces that fit into the room left are taken whole, in their order.
proof fn lemma_feed_fits(s: Seq<Seq<u8>>)
    requires
        s.flatten().len() <= PACKET_SIZE,
    ensures
        feed(Seq::empty(), s) == s.flatten(),
    decreases s.len(),
{
    if s.len() > 0 {
        let init = s.drop_last();
        assert(s == init.push(s.last()));
        init.lemma_flatten_push(s.last());
        lemma_feed_fits(init);
        assert(ingest_spec(init.flatten(), s.last()) == init.flatten() + s.last());
    }
}

/// The pieces before piece `j` flatten to a prefix of all the pieces.
proof fn lemma_flatten_prefix(s: Seq<Seq<u8>>, j: int)
    requires
        0 <= j <= s.len(),
    ensures
        s.take(j).flatten().len() <= s.flatten().len(),
        s.flatten().take(s.take(j).flatten().len() as int) == s.take(j).flatten(),
    decreases s.len() - j,
{
    if j == s.len() {
        assert(s.take(j) == s);
        assert(s.flatten().take(s.flatten().len() as int) =~= s.flatten());
    } else {
        lemma_flatten_prefix(s, j + 1);
        assert(s.take(j + 1) == s.take(j).push(s[j]));
        s.take(j).lemma_flatten_push(s[j]);
        let short = s.take(j).flatten();
        let long = s.take(j + 1).flatten();
        assert(s.flatten().take(short.len() as int) =~= long.take(short.len() as int));
        assert(long.take(short.len() as int) =~= short);
    }
}

/// A frame that arrives in pieces of any sizes is held back until its last
/// byte is in: after each piece the receiver holds exactly the bytes so far
/// (so an attempt reports not ready while they are fewer than a frame), and
/// once all have arrived an attempt decodes the channels the frame carries.
pub proof fn lemma_frame_in_pieces(c: Seq<u16>, flag: u8, chunks: Seq<Seq<u8>>)
    requires
        c.len() == 16,
        forall|i: int| 0 <= i < 16 ==> #[trigger] c[i] <= 0x7FF,
        chunks.flatten() == pack_frame(c, flag),
    ensures
        forall|j: int|
            0 <= j <= chunks.len() ==> feed(Seq::empty(), #[trigger] chunks.take(j)) == pack_frame(
                c,
                flag,
            ).take(chunks.take(j).flatten().len() as int),
        forall|j: int, o: Outcome|
            0 <= j <= chunks.len() && (#[trigger] chunks.take(j)).flatten().len() < PACKET_SIZE
                && #[trigger] o.reports(feed(Seq::empty(), chunks.take(j))) ==> o is NotReady,
        feed(Seq::empty(), chunks) == pack_frame(c, flag),
        forall|o: Outcome| #[trigger] o.reports(feed(Seq::empty(), chunks)) ==> carries(o, c),
{
    lemma_round_trip(c, flag);
    assert forall|j: int| 0 <= j <= chunks.len() implies feed(
        Seq::empty(),
        #[trigger] chunks.take(j),
    ) == pack_frame(c, flag).take(chunks.take(j).flatten().len() as int) by {
        lemma_flatten_prefix(chunks, j);
        lemma_feed_fits(chunks.take(j));
    }
    assert forall|j: int, o: Outcome|
        0 <= j <= chunks.len() && (#[trigger] chunks.take(j)).flatten().len() < PACKET_SIZE
            && #[trigger] o.reports(feed(Seq::empty(), chunks.take(j))) implies o is NotReady by {
        lemma_flatten_prefix(chunks, j);
        lemma_feed_fits(chunks.take(j));
    }
    lemma_feed_fits(chunks);
}

/// A full window that does not start with the header, arriving in pieces of
/// any sizes, is reported as a header mismatch and emptied as a whole; a
/// well-framed frame that arrives after it, in pieces of any sizes, is then
/// decoded.
pub proof fn lemma_recovers_after_bad_header(
    bad: Seq<Seq<u8>>,
    c: Seq<u16>,
    flag: u8,
    chunks: Seq<Seq<u8>>,
)
    requires
        bad.flatten().len() == PACKET_SIZE,
        bad.flatten()[0] != PACKET_HEADER,
        c.len() == 16,
        forall|i: int| 0 <= i < 16 ==> #[trigger] c[i] <= 0x7FF,
        chunks.flatten() == pack_frame(c, flag),
    ensures
        feed(Seq::empty(), bad) == bad.flatten(),
        forall|o: Outcome| #[trigger] o.reports(feed(Seq::empty(), bad)) ==> o is HeaderMismatch,
        after_decode(feed(Seq::empty(), bad)) == Seq::<u8>::empty(),
        forall|o: Outcome|
            #[trigger] o.reports(feed(after_decode(feed(Seq::empty(), bad)), chunks)) ==> carries(
                o,
                c,
            ),
{
    lemma_feed_fits(bad);
    lemma_frame_in_pieces(c, flag, chunks);
}

} // verus!
