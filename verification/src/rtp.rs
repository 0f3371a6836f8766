//! RTP packets that carry 24-bit linear PCM: building them, taking them apart, and telling what
//! is wrong with one that cannot be taken apart.

use crate::sample::{encode_l24, quantize_sample, read_l24_sample};
use crate::stream::{MAX_PACKET_SAMPLES, MAX_PACKET_SIZE, PAYLOAD_TYPE_L24, RTP_HEADER_SIZE};
use vstd::prelude::*;
#[allow(unused_imports)]
use vstd::slice::*;

verus! {

pub open spec fn version(packet: Seq<u8>) -> int {
    packet[0] as int / 64
}

pub open spec fn has_padding(packet: Seq<u8>) -> bool {
    packet[0] as int / 32 % 2 == 1
}

pub open spec fn has_extension(packet: Seq<u8>) -> bool {
    packet[0] as int / 16 % 2 == 1
}

/// The header's length with its contributing sources.
pub open spec fn header_len(packet: Seq<u8>) -> int {
    RTP_HEADER_SIZE + packet[0] as int % 16 * 4
}

pub open spec fn payload_type(packet: Seq<u8>) -> int {
    packet[1] as int % 128
}

/// Where the payload ends: before the padding, whose length is the packet's last byte.
pub open spec fn payload_end(packet: Seq<u8>) -> int {
    if has_padding(packet) {
        packet.len() - packet.last()
    } else {
        packet.len() as int
    }
}

/// Whether the header is one of a version 2 packet of 24-bit linear PCM without extensions, and
/// leaves room for a payload.
pub open spec fn carries_l24(packet: Seq<u8>) -> bool {
    &&& packet.len() >= RTP_HEADER_SIZE
    &&& version(packet) == 2
    &&& !has_extension(packet)
    &&& payload_type(packet) == PAYLOAD_TYPE_L24
    &&& header_len(packet) <= packet.len()
    &&& header_len(packet) <= payload_end(packet)
}

/// What stands between header and padding.
pub open spec fn payload(packet: Seq<u8>) -> Seq<u8> {
    packet.subrange(header_len(packet), payload_end(packet))
}

/// The samples of a payload, three bytes each.
pub open spec fn samples_of(payload: Seq<u8>) -> Seq<u32> {
    Seq::new(
        payload.len() / 3,
        |i: int|
            crate::sample::l24_sample(
                crate::sample::l24_value(payload[3 * i], payload[3 * i + 1], payload[3 * i + 2]),
            ),
    )
}

/// The payload of samples.
pub open spec fn payload_of(samples: Seq<u32>) -> Seq<u8> {
    Seq::new(
        3 * samples.len(),
        |i: int| crate::sample::l24_bytes(crate::sample::quantized(samples[i / 3]))[i % 3],
    )
}

/// The sequence number in a header.
pub open spec fn sequence_of(packet: Seq<u8>) -> u16 {
    (packet[2] * 0x100 + packet[3]) as u16
}

/// The header of a packet that is sent.
pub open spec fn rtp_header(sequence: u16, timestamp: u32, ssrc: u32) -> Seq<u8> {
    seq![
        0x80u8,
        PAYLOAD_TYPE_L24,
        (sequence / 0x100) as u8,
        (sequence % 0x100) as u8,
        (timestamp / 0x100_0000) as u8,
        (timestamp / 0x1_0000 % 0x100) as u8,
        (timestamp / 0x100 % 0x100) as u8,
        (timestamp % 0x100) as u8,
        (ssrc / 0x100_0000) as u8,
        (ssrc / 0x1_0000 % 0x100) as u8,
        (ssrc / 0x100 % 0x100) as u8,
        (ssrc % 0x100) as u8,
    ]
}

/// A packet that is sent.
pub open spec fn rtp_packet(sequence: u16, timestamp: u32, ssrc: u32, payload: Seq<u8>) -> Seq<u8> {
    rtp_header(sequence, timestamp, ssrc) + payload
}

/// A sent packet is taken apart into what it was built from: its sequence number, and each of its
/// samples as 24 bits carry it.
pub proof fn law_packet_round_trip(
    sequence: u16,
    timestamp: u32,
    ssrc: u32,
    samples: Seq<u32>,
)
    ensures
        ({
            let packet = rtp_packet(sequence, timestamp, ssrc, payload_of(samples));
            &&& carries_l24(packet)
            &&& sequence_of(packet) == sequence
            &&& payload(packet) == payload_of(samples)
            &&& samples_of(payload(packet)) == samples.map_values(
                |sample: u32| crate::sample::carried(sample),
            )
        }),
{
    let packet = rtp_packet(sequence, timestamp, ssrc, payload_of(samples));
    assert(packet[0] == 0x80);
    assert(packet[1] == PAYLOAD_TYPE_L24);
    assert(packet[2] == (sequence / 0x100) as u8);
    assert(packet[3] == (sequence % 0x100) as u8);
    assert(payload(packet) =~= payload_of(samples));
    assert(samples_of(payload_of(samples)) =~= samples.map_values(
        |sample: u32| crate::sample::carried(sample),
    ));
}

/// The samples of a packet and how many there are.
pub struct DecodedSamples {
    pub sample_count: usize,
    pub samples: [u32; MAX_PACKET_SAMPLES],
}

impl DecodedSamples {
    pub open spec fn wf(&self) -> bool {
        self.sample_count <= MAX_PACKET_SAMPLES
    }

    /// The samples that count.
    pub open spec fn audio(&self) -> Seq<u32> {
        self.samples@.take(self.sample_count as int)
    }
}

/// A packet on its way from the receiving worker to playout.
pub struct ReceiverPacket {
    pub sequence: u16,
    pub sample_count: usize,
    pub samples: [u32; MAX_PACKET_SAMPLES],
}

impl ReceiverPacket {
    pub open spec fn wf(&self) -> bool {
        self.sample_count <= MAX_PACKET_SAMPLES
    }

    /// The samples that count.
    pub open spec fn audio(&self) -> Seq<u32> {
        self.samples@.take(self.sample_count as int)
    }
}

/// Where the payload of a packet starts and ends.
fn locate_payload(packet: &[u8]) -> (bounds: Option<(usize, usize)>)
    ensures
        bounds is Some <==> carries_l24(packet@),
        bounds matches Some(b) ==> b.0 == header_len(packet@) && b.1 == payload_end(packet@)
            && b.0 <= b.1 <= packet@.len(),
{
    if packet.len() < RTP_HEADER_SIZE {
        return None;
    }
    if packet[0] / 64 != 2 {
        return None;
    }
    let padded: bool = packet[0] / 32 % 2 == 1;
    let extended: bool = packet[0] / 16 % 2 == 1;
    if extended || packet[1] % 128 != PAYLOAD_TYPE_L24 {
        return None;
    }
    let start: usize = RTP_HEADER_SIZE + (packet[0] % 16) as usize * 4;
    if packet.len() < start {
        return None;
    }
    let end: usize = if padded {
        let pad_bytes: usize = packet[packet.len() - 1] as usize;
        if pad_bytes > packet.len() {
            return None;
        }
        packet.len() - pad_bytes
    } else {
        packet.len()
    };
    if end < start {
        return None;
    }
    Some((start, end))
}

/// Takes a packet apart, whatever number of whole frames it holds.
pub fn decode_rtp_l24_packet(packet: &[u8], channels: u8) -> (samples: Option<Vec<u32>>)
    ensures
        samples is Some <==> channels != 0 && carries_l24(packet@) && payload(packet@).len() % (3
            * channels as nat) == 0,
        samples matches Some(s) ==> s@ == samples_of(payload(packet@)),
{
    if channels == 0 {
        return None;
    }
    let (start, end) = match locate_payload(packet) {
        None => {
            return None;
        },
        Some(bounds) => bounds,
    };
    let ghost body = payload(packet@);
    if (end - start) % (channels as usize * 3) != 0 {
        return None;
    }
    let count: usize = (end - start) / 3;
    let mut samples: Vec<u32> = Vec::with_capacity(count);
    let mut index: usize = 0;
    proof {
        assert(body.len() == end - start);
        lemma_whole_samples(body.len() as int, channels as int);
    }
    while index < count
        invariant
            index <= count,
            start + 3 * count == end,
            end <= packet@.len(),
            body == packet@.subrange(start as int, end as int),
            samples@ == samples_of(body).take(index as int),
            samples_of(body).len() == count,
        decreases count - index,
    {
        let chunk: &[u8] = slice_subrange(packet, start + 3 * index, start + 3 * index + 3);
        let sample: u32 = read_l24_sample(chunk);
        proof {
            assert(chunk@[0] == body[3 * index]);
            assert(chunk@[1] == body[3 * index + 1]);
            assert(chunk@[2] == body[3 * index + 2]);
            assert(sample == samples_of(body)[index as int]);
        }
        samples.push(sample);
        index = index + 1;
        proof {
            assert(samples@ =~= samples_of(body).take(index as int));
        }
    }
    proof {
        assert(samples@ =~= samples_of(body));
    }
    Some(samples)
}

proof fn lemma_whole_samples(bytes: int, channels: int)
    requires
        bytes >= 0,
        channels >= 1,
        bytes % (3 * channels) == 0,
    ensures
        bytes % 3 == 0,
{
    let frames = bytes / (3 * channels);
    vstd::arithmetic::div_mod::lemma_fundamental_div_mod(bytes, 3 * channels);
    assert(bytes == 3 * (channels * frames)) by (nonlinear_arith)
        requires
            bytes == (3 * channels) * frames,
    ;
}

/// Takes a packet apart that holds the expected number of frames.
pub fn decode_rtp_l24_packet_strict(packet: &[u8], channels: u8, expected_frames: usize) -> (samples:
    Option<Vec<u32>>)
    requires
        expected_frames * channels <= usize::MAX,
    ensures
        samples is Some <==> channels != 0 && carries_l24(packet@) && payload(packet@).len() % (3
            * channels as nat) == 0 && samples_of(payload(packet@)).len() == expected_frames
            * channels,
        samples matches Some(s) ==> s@ == samples_of(payload(packet@)),
{
    let samples: Vec<u32> = match decode_rtp_l24_packet(packet, channels) {
        None => {
            return None;
        },
        Some(samples) => samples,
    };
    if samples.len() != expected_frames * channels as usize {
        return None;
    }
    Some(samples)
}

/// Whether a packet holds exactly the expected frames, and no more than a packet can.
pub open spec fn holds_frames(packet: Seq<u8>, channels: u8, expected_frames: nat) -> bool {
    &&& channels != 0
    &&& expected_frames * channels <= MAX_PACKET_SAMPLES
    &&& carries_l24(packet)
    &&& payload(packet).len() == expected_frames * channels * 3
}

/// Takes a packet apart that holds exactly the expected frames.
pub fn decode_rtp_l24_packet_fixed(packet: &[u8], channels: u8, expected_frames: usize) -> (decoded:
    Option<DecodedSamples>)
    requires
        expected_frames * channels <= usize::MAX,
    ensures
        decoded is Some <==> holds_frames(packet@, channels, expected_frames as nat),
        decoded matches Some(d) ==> d.wf() && d.audio() == samples_of(payload(packet@)) && (forall|
            i: int,
        |
            d.sample_count <= i < MAX_PACKET_SAMPLES ==> d.samples@[i] == crate::sample::SILENCE),
{
    let expected_samples: usize = expected_frames * channels as usize;
    if channels == 0 || expected_samples > MAX_PACKET_SAMPLES {
        return None;
    }
    let (start, end) = match locate_payload(packet) {
        None => {
            return None;
        },
        Some(bounds) => bounds,
    };
    let ghost body = payload(packet@);
    if end - start != expected_samples * 3 {
        return None;
    }
    let mut fixed = DecodedSamples {
        sample_count: expected_samples,
        samples: [0u32; MAX_PACKET_SAMPLES],
    };
    let mut index: usize = 0;
    while index < expected_samples
        invariant
            index <= expected_samples <= MAX_PACKET_SAMPLES,
            start + 3 * expected_samples == end,
            end <= packet@.len(),
            body == packet@.subrange(start as int, end as int),
            samples_of(body).len() == expected_samples,
            fixed.sample_count == expected_samples,
            fixed.samples@.len() == MAX_PACKET_SAMPLES,
            forall|i: int| 0 <= i < index ==> fixed.samples@[i] == samples_of(body)[i],
            forall|i: int| index <= i < MAX_PACKET_SAMPLES ==> fixed.samples@[i] == 0,
        decreases expected_samples - index,
    {
        let chunk: &[u8] = slice_subrange(packet, start + 3 * index, start + 3 * index + 3);
        let sample: u32 = read_l24_sample(chunk);
        proof {
            assert(chunk@[0] == body[3 * index]);
            assert(chunk@[1] == body[3 * index + 1]);
            assert(chunk@[2] == body[3 * index + 2]);
            assert(sample == samples_of(body)[index as int]);
        }
        fixed.samples[index] = sample;
        index = index + 1;
    }
    proof {
        assert(fixed.audio() =~= samples_of(body));
    }
    Some(fixed)
}

/// Why a packet was not taken apart.
#[derive(Clone, Copy, Debug, PartialEq, Eq, Structural)]
pub enum InvalidPacketKind {
    Header,
    Format,
    FrameMismatch { actual_samples: usize },
}

/// What is wrong with a packet that was not taken apart. A broken header comes first, then a
/// format that is not understood, then a payload that is not whole frames, then a wrong number
/// of frames.
pub open spec fn invalid_kind(packet: Seq<u8>, channels: u8, expected_frames: nat) -> InvalidPacketKind {
    if packet.len() < RTP_HEADER_SIZE || channels == 0 || version(packet) != 2 {
        InvalidPacketKind::Header
    } else if has_extension(packet) || payload_type(packet) != PAYLOAD_TYPE_L24 {
        InvalidPacketKind::Format
    } else if !carries_l24(packet) {
        InvalidPacketKind::Header
    } else if payload(packet).len() % (3 * channels as nat) != 0 {
        InvalidPacketKind::Format
    } else if samples_of(payload(packet)).len() != expected_frames * channels {
        InvalidPacketKind::FrameMismatch {
            actual_samples: samples_of(payload(packet)).len() as usize,
        }
    } else {
        InvalidPacketKind::Format
    }
}

pub fn classify_invalid_packet(packet: &[u8], channels: u8, expected_frames: usize) -> (kind:
    InvalidPacketKind)
    requires
        expected_frames * channels <= usize::MAX,
    ensures
        kind == invalid_kind(packet@, channels, expected_frames as nat),
{
    if packet.len() < RTP_HEADER_SIZE || channels == 0 {
        return InvalidPacketKind::Header;
    }
    if packet[0] / 64 != 2 {
        return InvalidPacketKind::Header;
    }
    if packet[0] / 16 % 2 == 1 {
        return InvalidPacketKind::Format;
    }
    if packet[1] % 128 != PAYLOAD_TYPE_L24 {
        return InvalidPacketKind::Format;
    }
    let (start, end) = match locate_payload(packet) {
        None => {
            return InvalidPacketKind::Header;
        },
        Some(bounds) => bounds,
    };
    let length: usize = end - start;
    proof {
        assert(payload(packet@).len() == length);
        if length as int % (3 * channels as int) == 0 {
            lemma_whole_samples(length as int, channels as int);
        }
    }
    if length % 3 != 0 || length % (channels as usize * 3) != 0 {
        return InvalidPacketKind::Format;
    }
    let actual_samples: usize = length / 3;
    if actual_samples != expected_frames * channels as usize {
        return InvalidPacketKind::FrameMismatch { actual_samples };
    }
    InvalidPacketKind::Format
}

/// A packet is classified as having the wrong number of frames exactly where it would be taken
/// apart into whole frames, but not into the expected number.
pub proof fn law_frame_mismatch_is_a_wrong_frame_count(
    packet: Seq<u8>,
    channels: u8,
    expected_frames: nat,
)
    requires
        packet.len() <= usize::MAX,
    ensures
        (invalid_kind(packet, channels, expected_frames) is FrameMismatch) <==> (channels != 0
            && carries_l24(packet) && payload(packet).len() % (3 * channels as nat) == 0
            && samples_of(payload(packet)).len() != expected_frames * channels),
        invalid_kind(packet, channels, expected_frames) matches InvalidPacketKind::FrameMismatch {
            actual_samples,
        } ==> actual_samples == samples_of(payload(packet)).len() && !holds_frames(
            packet,
            channels,
            expected_frames,
        ),
{
}

/// The sequence number of a packet that is long enough to have one.
pub fn parse_rtp_sequence(packet: &[u8]) -> (sequence: Option<u16>)
    ensures
        sequence == (if packet@.len() < RTP_HEADER_SIZE {
            None
        } else {
            Some(sequence_of(packet@))
        }),
{
    if packet.len() < RTP_HEADER_SIZE {
        return None;
    }
    Some(packet[2] as u16 * 0x100 + packet[3] as u16)
}

/// Writes a sample's three bytes behind those that are there.
pub fn write_l24_sample(dst: &mut [u8; MAX_PACKET_SIZE], len: &mut usize, sample: u32)
    requires
        *old(len) + 3 <= MAX_PACKET_SIZE,
    ensures
        *final(len) == *old(len) + 3,
        final(dst)@ == old(dst)@.take(*old(len) as int) + crate::sample::l24_bytes(
            crate::sample::quantized(sample),
        ) + old(dst)@.skip(*old(len) + 3),
{
    proof {
        crate::sample::law_quantized_range(sample);
    }
    let bytes: [u8; 3] = encode_l24(quantize_sample(sample));
    dst[*len] = bytes[0];
    dst[*len + 1] = bytes[1];
    dst[*len + 2] = bytes[2];
    *len = *len + 3;
    proof {
        assert(dst@ =~= old(dst)@.take(*old(len) as int) + bytes@ + old(dst)@.skip(
            *old(len) + 3,
        ));
    }
}

/// A packet that is being filled or is on its way out.
pub struct SentPacket {
    len: usize,
    data: [u8; MAX_PACKET_SIZE],
}

impl SentPacket {
    pub closed spec fn wf(&self) -> bool {
        RTP_HEADER_SIZE <= self.len <= MAX_PACKET_SIZE
    }

    /// The whole packet.
    pub closed spec fn bytes(&self) -> Seq<u8> {
        self.data@.take(self.len as int)
    }

    /// The packet without its header.
    pub open spec fn body(&self) -> Seq<u8> {
        self.bytes().skip(RTP_HEADER_SIZE as int)
    }

    pub proof fn lemma_lengths(&self)
        requires
            self.wf(),
        ensures
            RTP_HEADER_SIZE <= self.bytes().len() <= MAX_PACKET_SIZE,
            self.body().len() == self.bytes().len() - RTP_HEADER_SIZE,
    {
    }

    /// A packet without payload.
    pub fn new() -> (packet: Self)
        ensures
            packet.wf(),
            packet.body() == Seq::<u8>::empty(),
    {
        let packet = SentPacket { len: RTP_HEADER_SIZE, data: [0u8; MAX_PACKET_SIZE] };
        proof {
            assert(packet.body() =~= Seq::<u8>::empty());
        }
        packet
    }

    /// Forgets the payload.
    pub fn clear_payload(&mut self)
        ensures
            final(self).wf(),
            final(self).body() == Seq::<u8>::empty(),
    {
        self.len = RTP_HEADER_SIZE;
        proof {
            assert(self.body() =~= Seq::<u8>::empty());
        }
    }

    /// Adds a sample to the payload.
    pub fn push_sample(&mut self, sample: u32)
        requires
            old(self).wf(),
            old(self).bytes().len() + 3 <= MAX_PACKET_SIZE,
        ensures
            final(self).wf(),
            final(self).body() == old(self).body() + crate::sample::l24_bytes(
                crate::sample::quantized(sample),
            ),
    {
        write_l24_sample(&mut self.data, &mut self.len, sample);
        proof {
            assert(self.body() =~= old(self).body() + crate::sample::l24_bytes(
                crate::sample::quantized(sample),
            ));
        }
    }

    /// Writes the header.
    pub fn stamp(&mut self, sequence: u16, timestamp: u32, ssrc: u32)
        requires
            old(self).wf(),
        ensures
            final(self).wf(),
            final(self).bytes() == rtp_packet(sequence, timestamp, ssrc, old(self).body()),
            final(self).body() == old(self).body(),
    {
        self.data[0] = 0x80;
        self.data[1] = PAYLOAD_TYPE_L24;
        self.data[2] = (sequence / 0x100) as u8;
        self.data[3] = (sequence % 0x100) as u8;
        self.data[4] = (timestamp / 0x100_0000) as u8;
        self.data[5] = (timestamp / 0x1_0000 % 0x100) as u8;
        self.data[6] = (timestamp / 0x100 % 0x100) as u8;
        self.data[7] = (timestamp % 0x100) as u8;
        self.data[8] = (ssrc / 0x100_0000) as u8;
        self.data[9] = (ssrc / 0x1_0000 % 0x100) as u8;
        self.data[10] = (ssrc / 0x100 % 0x100) as u8;
        self.data[11] = (ssrc % 0x100) as u8;
        proof {
            assert(self.body() =~= old(self).body());
            assert(self.bytes() =~= rtp_packet(sequence, timestamp, ssrc, old(self).body()));
        }
    }

    /// What goes out on the wire.
    pub fn as_bytes(&self) -> (bytes: &[u8])
        requires
            self.wf(),
        ensures
            bytes@ == self.bytes(),
    {
        slice_subrange(self.data.as_slice(), 0, self.len)
    }
}

/// How a packet that is sent lies on the wire: version 2, payload type 96, then the sequence number,
/// the time stamp and the source, each with its most significant byte first, then the payload.
pub proof fn law_sent_packets_lie_in_network_order(
    sequence: u16,
    timestamp: u32,
    ssrc: u32,
    payload: Seq<u8>,
)
    ensures
        ({
            let packet = rtp_packet(sequence, timestamp, ssrc, payload);
            &&& packet.len() == 12 + payload.len()
            &&& packet[0] == 128
            &&& packet[1] == 96
            &&& packet[2] * 256 + packet[3] == sequence
            &&& ((packet[4] * 256 + packet[5]) * 256 + packet[6]) * 256 + packet[7] == timestamp
            &&& ((packet[8] * 256 + packet[9]) * 256 + packet[10]) * 256 + packet[11] == ssrc
            &&& packet.skip(12) == payload
        }),
{
    let packet = rtp_packet(sequence, timestamp, ssrc, payload);
    assert(packet.skip(12) =~= payload);
    assert(packet[4] == timestamp / 0x100_0000);
    assert(packet[8] == ssrc / 0x100_0000);
}

/// Which packets are taken apart, and where their samples are: a header of version 2 and payload type
/// 96 with no extension, behind it 4 bytes for each contributing source, and at the end as many bytes
/// of padding as the last byte says, where there is any. The marker bit makes no difference.
pub proof fn law_payloads_lie_between_header_and_padding(packet: Seq<u8>)
    ensures
        packet.len() < 12 ==> !carries_l24(packet),
        packet.len() >= 12 ==> {
            let sources = packet[0] as int % 16;
            let kind = packet[0] - sources;
            let padding = if kind == 160 {
                packet[packet.len() - 1] as int
            } else {
                0
            };
            &&& carries_l24(packet) <==> (kind == 128 || kind == 160) && (packet[1] == 96
                || packet[1] == 224) && 12 + 4 * sources + padding <= packet.len()
            &&& carries_l24(packet) ==> payload(packet) == packet.subrange(
                12 + 4 * sources,
                packet.len() - padding,
            )
            &&& sequence_of(packet) == packet[2] * 256 + packet[3]
        },
{
}

/// A packet that holds the expected frames has three bytes for each sample of each of them, and one
/// sample at least.
pub proof fn law_whole_packets_have_three_bytes_a_sample(
    packet: Seq<u8>,
    channels: u8,
    expected_frames: nat,
)
    ensures
        holds_frames(packet, channels, expected_frames) <==> carries_l24(packet) && channels > 0
            && payload(packet).len() == 3 * (expected_frames * channels) && expected_frames
            * channels <= 9_216,
        holds_frames(packet, channels, expected_frames) ==> samples_of(payload(packet)).len()
            == expected_frames * channels,
{
}

/// The bytes of a payload are those of its samples, one behind the other, most significant first, in
/// two's complement.
pub proof fn law_payload_bytes_are_the_samples(samples: Seq<u32>, index: int)
    requires
        0 <= index < samples.len(),
    ensures
        payload_of(samples).len() == 3 * samples.len(),
        ({
            let body = payload_of(samples);
            let word = (body[3 * index] * 256 + body[3 * index + 1]) * 256 + body[3 * index + 2];
            let value = crate::sample::quantized(samples[index]);
            word == if value < 0 {
                value + 16_777_216
            } else {
                value
            }
        }),
{
    crate::sample::law_quantized_range(samples[index]);
    crate::sample::law_l24_bytes_are_in_network_order(crate::sample::quantized(samples[index]));
    assert((3 * index) / 3 == index && (3 * index + 1) / 3 == index && (3 * index + 2) / 3 == index);
}

/// Why a packet of a stream is not taken: a header that is cut short, of another version, or without
/// room for what it announces is broken. Another payload type, an extension, or a payload that is no
/// whole number of frames is not understood. What is left has the wrong number of frames, and the
/// samples that there are, are told.
pub proof fn law_invalid_packets_are_told_apart(
    packet: Seq<u8>,
    channels: u8,
    expected_frames: nat,
)
    requires
        channels > 0,
        packet.len() <= usize::MAX,
        !holds_frames(packet, channels, expected_frames),
        expected_frames * channels <= 9_216,
    ensures
        ({
            let kind = invalid_kind(packet, channels, expected_frames);
            let foreign = packet[0] as int / 16 % 2 == 1 || (packet[1] != 96 && packet[1] != 224);
            &&& packet.len() < 12 || !(128 <= packet[0] < 192) ==> kind == InvalidPacketKind::Header
            &&& packet.len() >= 12 && 128 <= packet[0] < 192 && foreign ==> kind
                == InvalidPacketKind::Format
            &&& packet.len() >= 12 && 128 <= packet[0] < 192 && !foreign && !carries_l24(packet)
                ==> kind == InvalidPacketKind::Header
            &&& carries_l24(packet) && payload(packet).len() % (3 * channels as nat) != 0 ==> kind
                == InvalidPacketKind::Format
            &&& carries_l24(packet) && payload(packet).len() % (3 * channels as nat) == 0 ==> kind
                == (InvalidPacketKind::FrameMismatch {
                actual_samples: (payload(packet).len() / 3) as usize,
            })
        }),
{
    let size = payload(packet).len() as int;
    if carries_l24(packet) && size % (3 * channels as int) == 0 {
        lemma_whole_samples(size, channels as int);
    }
}

} // verus!
