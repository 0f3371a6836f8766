//! The sending end of a stream: what its audio callback puts into packets.

use crate::block::AudioBlock;
use crate::rtp::SentPacket;
use crate::stream::{stream_level, ActiveStream, StreamLevel, StreamParameters, MAX_CHANNELS};
use crate::receiver::WorkerOrder;
use std::collections::VecDeque;
use vstd::prelude::*;

verus! {

/// How many packets wait between the audio callback and the worker at most.
pub const SEND_QUEUE_PACKETS: usize = 256;

/// A number's 32 bits, turned left by 13.
pub open spec fn turned_left_13(value: int) -> int {
    value % 0x8_0000 * 0x2000 + value / 0x8_0000
}

/// A synchronisation source for a stream that starts at a time since the epoch.
pub fn seed_ssrc(seconds: u64, nanos: u32) -> (ssrc: u32)
    ensures
        ssrc == nanos ^ (turned_left_13(seconds as int % 0x1_0000_0000) as u32),
{
    let low: u64 = seconds % 0x1_0000_0000;
    let turned: u64 = low % 0x8_0000 * 0x2000 + low / 0x8_0000;
    nanos ^ turned as u32
}

/// What the sender's audio side knows.
#[verifier::ext_equal]
pub struct Outgoing {
    pub stream: Option<ActiveStream>,
    pub connected: bool,
    pub worker_gone: bool,
    pub pending: Seq<u8>,
    pub pending_frames: nat,
    pub sequence: u16,
    pub timestamp: u32,
    pub ssrc: u32,
    pub outbox: Seq<Seq<u8>>,
}

impl Outgoing {
    /// Nothing.
    pub open spec fn fresh(ssrc: u32) -> Outgoing {
        Outgoing {
            stream: None,
            connected: false,
            worker_gone: false,
            pending: Seq::empty(),
            pending_frames: 0,
            sequence: 0,
            timestamp: 0,
            ssrc,
            outbox: Seq::empty(),
        }
    }

    /// A stream was joined, and nothing of it was sent.
    pub open spec fn joined(stream: ActiveStream, ssrc: u32) -> Outgoing {
        Outgoing { stream: Some(stream), connected: true, ..Outgoing::fresh(ssrc) }
    }

    /// Whether a stream is being sent.
    pub open spec fn sends_stream(self, stream: ActiveStream) -> bool {
        self.stream == Some(stream) && self.connected
    }

    /// Whether a packet would be taken.
    pub open spec fn has_room(self) -> bool {
        !self.worker_gone && self.outbox.len() < SEND_QUEUE_PACKETS
    }

    /// How many of some packets would be taken.
    pub open spec fn fitting(self, packets: nat) -> nat {
        if !self.has_room() {
            0
        } else if self.outbox.len() + packets <= SEND_QUEUE_PACKETS {
            packets
        } else {
            (SEND_QUEUE_PACKETS - self.outbox.len()) as nat
        }
    }

    /// The packet that is being filled.
    pub open spec fn packet(self) -> Seq<u8> {
        crate::rtp::rtp_packet(self.sequence, self.timestamp, self.ssrc, self.pending)
    }

    /// After the packet that was being filled was handed on, or given up where there is no room.
    /// Either way the next has the next sequence number, and a time stamp that is as many frames
    /// later as the packet has.
    pub open spec fn flushed(self, packet_frames: nat) -> Outgoing {
        Outgoing {
            pending: Seq::empty(),
            pending_frames: 0,
            sequence: ((self.sequence + 1) % 0x1_0000) as u16,
            timestamp: ((self.timestamp + packet_frames) % 0x1_0000_0000) as u32,
            outbox: if self.has_room() {
                self.outbox.push(self.packet())
            } else {
                self.outbox
            },
            ..self
        }
    }

    /// After a frame was put into the packet that is being filled, which is handed on once it is
    /// full.
    pub open spec fn with_frame(self, samples: Seq<u32>, packet_frames: nat) -> Outgoing {
        let filled = Outgoing {
            pending: self.pending + crate::rtp::payload_of(samples),
            pending_frames: self.pending_frames + 1,
            ..self
        };
        if filled.pending_frames == packet_frames {
            filled.flushed(packet_frames)
        } else {
            filled
        }
    }

    /// After the first `frames` frames of a callback.
    pub open spec fn with_frames(
        self,
        buffers: Seq<Option<Seq<u32>>>,
        stream: ActiveStream,
        frames: nat,
    ) -> Outgoing
        decreases frames,
    {
        if frames == 0 {
            self
        } else {
            self.with_frames(buffers, stream, (frames - 1) as nat).with_frame(
                crate::block::frame_at(buffers, stream.params.channels as nat, frames - 1),
                stream.level.frames(),
            )
        }
    }

    /// After a callback.
    pub open spec fn pushed(self, buffers: Seq<Option<Seq<u32>>>, frames: nat) -> Outgoing {
        match self.stream {
            Some(stream) if self.connected => self.with_frames(buffers, stream, frames),
            _ => self,
        }
    }

    /// How many packets a callback fills.
    pub open spec fn filled(self, frames: nat) -> nat {
        match self.stream {
            Some(stream) if self.connected => (self.pending_frames + frames)
                / stream.level.frames(),
            _ => 0,
        }
    }
}

/// The sender's audio side.
pub struct SenderAudioState {
    pub stream: Option<ActiveStream>,
    pub connected: bool,
    pub worker_gone: bool,
    pub pending_packet: Box<SentPacket>,
    pub pending_frames: usize,
    pub sequence: u16,
    pub timestamp: u32,
    pub ssrc: u32,
    pub outbox: VecDeque<Box<SentPacket>>,
    pub spare: Vec<Box<SentPacket>>,
}

/// Packets as they go out on the wire.
pub open spec fn on_wire(packets: Seq<Box<SentPacket>>) -> Seq<Seq<u8>> {
    packets.map_values(|packet: Box<SentPacket>| packet.bytes())
}

impl View for SenderAudioState {
    type V = Outgoing;

    open spec fn view(&self) -> Outgoing {
        Outgoing {
            stream: self.stream,
            connected: self.connected,
            worker_gone: self.worker_gone,
            pending: self.pending_packet.body(),
            pending_frames: self.pending_frames as nat,
            sequence: self.sequence,
            timestamp: self.timestamp,
            ssrc: self.ssrc,
            outbox: on_wire(self.outbox@),
        }
    }
}

impl SenderAudioState {
    /// The pending packet holds the pending frames, which are too few for a packet, and no more
    /// packets wait than may.
    pub open spec fn wf(&self) -> bool {
        &&& self.pending_packet.wf()
        &&& self.outbox@.len() <= SEND_QUEUE_PACKETS
        &&& self.spare@.len() <= SEND_QUEUE_PACKETS
        &&& forall|i: int| 0 <= i < self.outbox@.len() ==> (#[trigger] self.outbox@[i]).wf()
        &&& self.connected ==> self.stream is Some
        &&& self.stream matches Some(stream) ==> {
            &&& stream.wf()
            &&& self.pending_frames < stream.level.frames()
            &&& self@.pending.len() == self.pending_frames * stream.params.channels * 3
        }
    }

    /// Nothing was sent.
    pub fn new(ssrc: u32) -> (state: Self)
        ensures
            state.wf(),
            state@ == Outgoing::fresh(ssrc),
            state.spare@.len() == 0,
    {
        let state = SenderAudioState {
            stream: None,
            connected: false,
            worker_gone: false,
            pending_packet: Box::new(SentPacket::new()),
            pending_frames: 0,
            sequence: 0,
            timestamp: 0,
            ssrc,
            outbox: VecDeque::new(),
            spare: Vec::new(),
        };
        proof {
            assert(state@ =~= Outgoing::fresh(ssrc));
        }
        state
    }

    /// Forgets everything.
    pub fn reset_local(&mut self, ssrc: u32)
        ensures
            final(self).wf(),
            final(self)@ == Outgoing::fresh(ssrc),
    {
        self.stream = None;
        self.connected = false;
        self.worker_gone = false;
        self.outbox.clear();
        self.spare.clear();
        self.pending_packet.clear_payload();
        self.pending_frames = 0;
        self.sequence = 0;
        self.timestamp = 0;
        self.ssrc = ssrc;
        proof {
            assert(self@ =~= Outgoing::fresh(ssrc));
        }
    }

    /// An empty packet: one that was sent and came back, where there is one.
    fn recycled_or_fresh(&mut self) -> (packet: Box<SentPacket>)
        ensures
            packet.wf(),
            packet.body() == Seq::<u8>::empty(),
            final(self).spare@.len() <= old(self).spare@.len(),
            *final(self) == (SenderAudioState { spare: final(self).spare, ..*old(self) }),
    {
        match self.spare.pop() {
            Some(mut packet) => {
                packet.clear_payload();
                packet
            },
            None => Box::new(SentPacket::new()),
        }
    }

    /// Hands the pending packet on. Tells whether it was given up instead.
    fn flush_packet(&mut self, packet_frames: u32) -> (dropped: bool)
        requires
            old(self).pending_packet.wf(),
            old(self).outbox@.len() <= SEND_QUEUE_PACKETS,
            old(self).spare@.len() <= SEND_QUEUE_PACKETS,
            forall|i: int|
                0 <= i < old(self).outbox@.len() ==> (#[trigger] old(self).outbox@[i]).wf(),
            old(self).connected,
            old(self).stream matches Some(stream) && stream.wf(),
        ensures
            final(self).wf(),
            final(self)@ == old(self)@.flushed(packet_frames as nat),
            dropped == !old(self)@.has_room(),
    {
        let ghost before = self@;
        self.pending_packet.stamp(self.sequence, self.timestamp, self.ssrc);
        let mut packet = self.recycled_or_fresh();
        std::mem::swap(&mut self.pending_packet, &mut packet);
        let ghost waiting = self.outbox@;
        let dropped: bool = self.worker_gone || self.outbox.len() >= SEND_QUEUE_PACKETS;
        if !dropped {
            self.outbox.push_back(packet);
            proof {
                assert(on_wire(self.outbox@) =~= before.outbox.push(before.packet()));
            }
        }
        self.sequence = self.sequence.wrapping_add(1);
        self.timestamp = self.timestamp.wrapping_add(packet_frames);
        self.pending_frames = 0;
        proof {
            let channels = self.stream->0.params.channels;
            assert(0 * channels * 3 == 0) by (nonlinear_arith);
            assert(self@ =~= before.flushed(packet_frames as nat));
        }
        dropped
    }

    /// Puts the frames of a callback into packets. Gives the number of packets that were given up.
    pub fn push_block(&mut self, inputs: &AudioBlock, frames: usize) -> (dropped: usize)
        requires
            old(self).wf(),
            inputs.wf(),
            old(self).stream matches Some(stream) ==> crate::block::covers(
                inputs@,
                stream.params.channels as int,
                frames as int,
            ),
        ensures
            final(self).wf(),
            final(self)@ == old(self)@.pushed(inputs@, frames as nat),
            dropped == old(self)@.filled(frames as nat) - (final(self)@.outbox.len() - old(
                self,
            )@.outbox.len()),
    {
        let ghost before = self@;
        if !self.connected {
            return 0;
        }
        let stream: ActiveStream = match self.stream {
            None => {
                return 0;
            },
            Some(stream) => stream,
        };
        let channels: usize = stream.params.channels as usize;
        let packet_frames: usize = stream.level.packet_frames();
        let mut frame: usize = 0;
        let mut dropped: usize = 0;
        proof {
            assert(before.pending_frames / stream.level.frames() == 0) by {
                match stream.level {
                    StreamLevel::A48k => {},
                    StreamLevel::Legacy44k1 => {},
                    StreamLevel::AX96k => {},
                }
            }
        }
        while frame < frames
            invariant
                frame <= frames,
                inputs.wf(),
                self.wf(),
                self.stream == Some(stream),
                self.connected,
                before.stream == Some(stream),
                before.connected,
                before.pending_frames < packet_frames,
                stream.wf(),
                channels == stream.params.channels,
                packet_frames == stream.level.frames(),
                1 <= packet_frames <= 96,
                crate::block::covers(inputs@, channels as int, frames as int),
                self@ == before.with_frames(inputs@, stream, frame as nat),
                (before.pending_frames + frame) == before.filled(frame as nat) * packet_frames
                    + self.pending_frames,
                dropped == before.filled(frame as nat) - (self@.outbox.len() - before.outbox.len()),
                dropped <= frame,
                before.outbox.len() <= self@.outbox.len(),
            decreases frames - frame,
        {
            let ghost entry = self@;
            let ghost now = *self;
            let ghost samples = crate::block::frame_at(inputs@, channels as nat, frame as int);
            proof {
                lemma_room(
                    stream.level,
                    stream.params.channels,
                    self.pending_frames as int,
                );
                self.pending_packet.lemma_lengths();
            }
            let mut channel: usize = 0;
            proof {
                assert(entry.pending + crate::rtp::payload_of(samples.take(0)) =~= entry.pending);
            }
            while channel < channels
                invariant
                    channel <= channels <= MAX_CHANNELS,
                    frame < frames,
                    inputs.wf(),
                    crate::block::covers(inputs@, channels as int, frames as int),
                    samples == crate::block::frame_at(inputs@, channels as nat, frame as int),
                    self.pending_packet.wf(),
                    *self == (SenderAudioState { pending_packet: self.pending_packet, ..now }),
                    self.pending_packet.body() == entry.pending + crate::rtp::payload_of(
                        samples.take(channel as int),
                    ),
                    entry.pending.len() + channels * 3 + crate::stream::RTP_HEADER_SIZE
                        <= crate::stream::MAX_PACKET_SIZE,
                decreases channels - channel,
            {
                let ghost filled = self.pending_packet.body();
                proof {
                    self.pending_packet.lemma_lengths();
                    assert(samples.take(channel as int).len() == channel);
                }
                let sample: u32 = inputs.sample(channel, frame);
                self.pending_packet.push_sample(sample);
                proof {
                    lemma_payload_grows(samples, channel as int);
                    assert(self.pending_packet.body() =~= entry.pending + crate::rtp::payload_of(
                        samples.take(channel + 1),
                    ));
                }
                channel = channel + 1;
            }
            proof {
                assert(samples.take(channels as int) =~= samples);
                lemma_count(
                    before.pending_frames as int + frame,
                    packet_frames as int,
                    before.filled(frame as nat) as int,
                    self.pending_frames as int,
                );
            }
            self.pending_frames = self.pending_frames + 1;
            if self.pending_frames == packet_frames {
                let lost: bool = self.flush_packet(packet_frames as u32);
                if lost {
                    dropped = dropped + 1;
                }
            } else {
                proof {
                    let p = now.pending_frames as int;
                    let c = channels as int;
                    assert((p + 1) * c * 3 == p * c * 3 + c * 3) by (nonlinear_arith);
                }
            }
            frame = frame + 1;
        }
        dropped
    }
}

/// A packet has room for the next frame.
proof fn lemma_room(level: StreamLevel, channels: u8, frames: int)
    requires
        channels <= MAX_CHANNELS,
        0 <= frames < level.frames(),
    ensures
        frames * channels * 3 + channels * 3 + crate::stream::RTP_HEADER_SIZE
            <= crate::stream::MAX_PACKET_SIZE,
{
    assert(frames * channels * 3 + channels * 3 <= 96 * 96 * 3) by (nonlinear_arith)
        requires
            0 <= frames <= 95,
            0 <= channels <= 96,
    ;
}

/// A payload grows by one sample's bytes.
proof fn lemma_payload_grows(samples: Seq<u32>, count: int)
    requires
        0 <= count < samples.len(),
    ensures
        crate::rtp::payload_of(samples.take(count + 1)) == crate::rtp::payload_of(
            samples.take(count),
        ) + crate::sample::l24_bytes(crate::sample::quantized(samples[count])),
{
    assert(crate::rtp::payload_of(samples.take(count + 1)) =~= crate::rtp::payload_of(
        samples.take(count),
    ) + crate::sample::l24_bytes(crate::sample::quantized(samples[count])));
}

/// One frame more fills the packet, or does not.
proof fn lemma_count(total: int, size: int, whole: int, rest: int)
    requires
        size >= 1,
        0 <= rest < size,
        total == whole * size + rest,
    ensures
        rest + 1 < size ==> (total + 1) / size == whole,
        rest + 1 == size ==> (total + 1) / size == whole + 1 && total + 1 == (whole + 1) * size,
{
    if rest + 1 < size {
        vstd::arithmetic::div_mod::lemma_fundamental_div_mod_converse(
            total + 1,
            size,
            whole,
            rest + 1,
        );
    } else {
        assert((whole + 1) * size == whole * size + size) by (nonlinear_arith);
        vstd::arithmetic::div_mod::lemma_fundamental_div_mod_converse(total + 1, size, whole + 1, 0);
    }
}

/// What a sender reports.
#[derive(Clone, Copy, Debug, PartialEq, Eq, Structural)]
pub struct SenderStatus {
    pub active: bool,
    pub packets_sent: u64,
    pub packets_dropped: u64,
    pub queued_frames: usize,
}

impl SenderStatus {
    /// Nothing has happened.
    pub open spec fn cleared() -> SenderStatus {
        SenderStatus { active: false, packets_sent: 0, packets_dropped: 0, queued_frames: 0 }
    }

    /// After a packet was sent, or could not be.
    pub open spec fn with_departure(self, sent: bool) -> SenderStatus {
        if sent {
            SenderStatus { packets_sent: crate::receiver::wrapped(self.packets_sent), ..self }
        } else {
            SenderStatus { packets_dropped: crate::receiver::wrapped(self.packets_dropped), ..self }
        }
    }
}

impl Default for SenderStatus {
    fn default() -> (status: Self)
        ensures
            status == SenderStatus::cleared(),
    {
        SenderStatus { active: false, packets_sent: 0, packets_dropped: 0, queued_frames: 0 }
    }
}

/// The stream that a sender sends: none where it is off, has no endpoint to send to, or there is
/// no level for the sample rate.
pub open spec fn sent_stream(params: StreamParameters, sample_rate_hz: u32) -> Option<
    ActiveStream,
> {
    match crate::stream::level_of(sample_rate_hz, params.channels) {
        Some(level) if params.enabled && params.has_destination() => Some(
            ActiveStream { params, level },
        ),
        _ => None,
    }
}

/// The sending end of a stream.
pub struct NetworkSender {
    audio: SenderAudioState,
    reset_requested: bool,
    status: SenderStatus,
}

/// What a callback does to a sender, and what it says about the worker. Where there is a stream to
/// send, its frames go into packets, and what finds no room is counted as dropped.
pub open spec fn pushed_audio(
    before: &NetworkSender,
    params: StreamParameters,
    sample_rate_hz: u32,
    inputs: Seq<Option<Seq<u32>>>,
    frames: nat,
    ssrc: u32,
    after: &NetworkSender,
    order: WorkerOrder,
) -> bool {
    &&& !after.resetting()
    &&& match sent_stream(params, sample_rate_hz) {
        None => {
            &&& order is Keep
            &&& after.outgoing() == before.start(ssrc)
            &&& after.status() == (SenderStatus { queued_frames: 0, ..before.status() })
        },
        Some(stream) => {
            let start = before.start_of(stream, ssrc);
            let lost = start.filled(frames) - (after.outgoing().outbox.len() - start.outbox.len());
            &&& order == (if before.start(ssrc).sends_stream(stream) {
                WorkerOrder::Keep
            } else {
                WorkerOrder::Start(stream)
            })
            &&& after.outgoing() == start.pushed(inputs, frames)
            &&& after.status() == (SenderStatus {
                queued_frames: after.outgoing().pending_frames as usize,
                packets_dropped: ((before.status().packets_dropped + lost)
                    % 0x1_0000_0000_0000_0000) as u64,
                ..before.status()
            })
        },
    }
}

impl NetworkSender {
    pub closed spec fn wf(&self) -> bool {
        self.audio.wf()
    }

    /// What the audio callback has.
    pub closed spec fn outgoing(&self) -> Outgoing {
        self.audio@
    }

    /// Whether the next callback starts afresh.
    pub closed spec fn resetting(&self) -> bool {
        self.reset_requested
    }

    /// What is reported.
    pub closed spec fn status(&self) -> SenderStatus {
        self.status
    }

    /// The packets that were sent and can be filled again.
    pub closed spec fn spares(&self) -> Seq<Box<SentPacket>> {
        self.audio.spare@
    }

    /// What the next callback starts with.
    pub open spec fn start(&self, ssrc: u32) -> Outgoing {
        if self.resetting() {
            Outgoing::fresh(ssrc)
        } else {
            self.outgoing()
        }
    }

    /// What a callback that sends a stream starts with.
    pub open spec fn start_of(&self, stream: ActiveStream, ssrc: u32) -> Outgoing {
        if self.start(ssrc).sends_stream(stream) {
            self.start(ssrc)
        } else {
            Outgoing::joined(stream, ssrc)
        }
    }

    /// A sender that has sent nothing.
    pub fn new(ssrc: u32) -> (sender: Self)
        ensures
            sender.wf(),
            sender.outgoing() == Outgoing::fresh(ssrc),
            !sender.resetting(),
            sender.status() == SenderStatus::cleared(),
            sender.spares().len() == 0,
    {
        NetworkSender {
            audio: SenderAudioState::new(ssrc),
            reset_requested: false,
            status: SenderStatus::default(),
        }
    }

    /// Clears what is reported, and lets the next callback start afresh. The worker is to be
    /// stopped.
    pub fn reset(&mut self)
        requires
            old(self).wf(),
        ensures
            final(self).wf(),
            final(self).resetting(),
            final(self).status() == SenderStatus::cleared(),
            final(self).outgoing() == old(self).outgoing(),
    {
        self.reset_requested = true;
        self.status = SenderStatus::default();
    }

    /// Makes sure that the callback sends a stream. Where it does not yet, everything of the stream
    /// before is forgotten.
    fn ensure_stream(&mut self, candidate: ActiveStream, ssrc: u32) -> (order: WorkerOrder)
        requires
            old(self).wf(),
            candidate.wf(),
        ensures
            final(self).wf(),
            final(self).reset_requested == old(self).reset_requested,
            final(self).status == old(self).status,
            if old(self).audio@.sends_stream(candidate) {
                &&& order is Keep
                &&& final(self).audio@ == old(self).audio@
            } else {
                &&& order == WorkerOrder::Start(candidate)
                &&& final(self).audio@ == Outgoing::joined(candidate, ssrc)
            },
    {
        if let Some(current) = self.audio.stream {
            if current.same(candidate) && self.audio.connected {
                return WorkerOrder::Keep;
            }
        }
        self.audio.reset_local(ssrc);
        self.audio.stream = Some(candidate);
        self.audio.connected = true;
        proof {
            let channels = candidate.params.channels;
            assert(0 * channels * 3 == 0) by (nonlinear_arith);
        }
        WorkerOrder::Start(candidate)
    }

    /// One audio callback. `ssrc` is the synchronisation source of a stream that starts now. The
    /// order tells what is to be done about the worker.
    pub fn push_audio(
        &mut self,
        params: StreamParameters,
        sample_rate_hz: u32,
        inputs: &AudioBlock,
        frames: usize,
        ssrc: u32,
    ) -> (order: WorkerOrder)
        requires
            old(self).wf(),
            inputs.wf(),
            sent_stream(params, sample_rate_hz) is Some ==> crate::block::covers(
                inputs@,
                params.channels as int,
                frames as int,
            ),
        ensures
            final(self).wf(),
            pushed_audio(
                old(self),
                params,
                sample_rate_hz,
                inputs@,
                frames as nat,
                ssrc,
                final(self),
                order,
            ),
    {
        if self.reset_requested {
            self.reset_requested = false;
            self.audio.reset_local(ssrc);
        }
        if !params.enabled || !params.sane_destination() {
            self.status.queued_frames = 0;
            return WorkerOrder::Keep;
        }
        let level: StreamLevel = match stream_level(sample_rate_hz, params.channels) {
            None => {
                self.status.queued_frames = 0;
                return WorkerOrder::Keep;
            },
            Some(level) => level,
        };
        let order = self.ensure_stream(ActiveStream { params, level }, ssrc);
        let dropped: usize = self.audio.push_block(inputs, frames);
        self.status.packets_dropped = self.status.packets_dropped.wrapping_add(dropped as u64);
        self.status.queued_frames = self.audio.pending_frames;
        order
    }

    /// What is reported.
    pub fn status_snapshot(&self) -> (status: SenderStatus)
        ensures
            status == self.status(),
    {
        self.status
    }

    /// Gives the worker the packet that has waited longest.
    pub fn take_packet(&mut self) -> (packet: Option<Box<SentPacket>>)
        requires
            old(self).wf(),
        ensures
            final(self).wf(),
            final(self).resetting() == old(self).resetting(),
            final(self).status() == old(self).status(),
            final(self).spares() == old(self).spares(),
            match packet {
                None => old(self).outgoing().outbox.len() == 0 && final(self).outgoing() == old(
                    self,
                ).outgoing(),
                Some(p) => {
                    &&& old(self).outgoing().outbox.len() > 0
                    &&& p.wf()
                    &&& p.bytes() == old(self).outgoing().outbox[0]
                    &&& final(self).outgoing() == (Outgoing {
                        outbox: old(self).outgoing().outbox.skip(1),
                        ..old(self).outgoing()
                    })
                },
            },
    {
        let ghost before = self.audio@;
        let packet = self.audio.outbox.pop_front();
        proof {
            if packet is Some {
                assert(self.audio@.outbox =~= before.outbox.skip(1));
            }
        }
        packet
    }

    /// Takes a packet back that was sent, to be filled again. No more are kept than may wait.
    pub fn recycle(&mut self, packet: Box<SentPacket>)
        requires
            old(self).wf(),
        ensures
            final(self).wf(),
            final(self).outgoing() == old(self).outgoing(),
            final(self).resetting() == old(self).resetting(),
            final(self).status() == old(self).status(),
            final(self).spares() == (if old(self).spares().len() < SEND_QUEUE_PACKETS {
                old(self).spares().push(packet)
            } else {
                old(self).spares()
            }),
    {
        if self.audio.spare.len() < SEND_QUEUE_PACKETS {
            self.audio.spare.push(packet);
        }
    }

    /// Notes that the worker runs, or that it no longer does.
    pub fn note_active(&mut self, active: bool)
        requires
            old(self).wf(),
        ensures
            final(self).wf(),
            final(self).outgoing() == old(self).outgoing(),
            final(self).resetting() == old(self).resetting(),
            final(self).status() == (SenderStatus { active, ..old(self).status() }),
    {
        self.status.active = active;
    }

    /// Notes that the worker takes no more packets: those that follow are given up.
    pub fn note_worker_gone(&mut self)
        requires
            old(self).wf(),
        ensures
            final(self).wf(),
            final(self).outgoing() == (Outgoing { worker_gone: true, ..old(self).outgoing() }),
            final(self).resetting() == old(self).resetting(),
            final(self).status() == old(self).status(),
    {
        self.audio.worker_gone = true;
    }

    /// Notes that a packet was sent, or could not be.
    pub fn note_sent(&mut self, sent: bool)
        requires
            old(self).wf(),
        ensures
            final(self).wf(),
            final(self).outgoing() == old(self).outgoing(),
            final(self).resetting() == old(self).resetting(),
            final(self).status() == old(self).status().with_departure(sent),
            final(self).spares() == old(self).spares(),
    {
        if sent {
            self.status.packets_sent = self.status.packets_sent.wrapping_add(1);
        } else {
            self.status.packets_dropped = self.status.packets_dropped.wrapping_add(1);
        }
    }
}

/// The samples of the frames from `from` to `to`, frame by frame.
pub open spec fn interleaved(
    buffers: Seq<Option<Seq<u32>>>,
    channels: nat,
    from: nat,
    to: nat,
) -> Seq<u32> {
    Seq::new(
        ((to - from) * channels) as nat,
        |i: int|
            crate::block::sample_at(buffers, i % channels as int, from + i / channels as int),
    )
}

/// A frame more.
proof fn lemma_interleaved_grows(
    buffers: Seq<Option<Seq<u32>>>,
    channels: nat,
    from: nat,
    to: nat,
)
    requires
        channels >= 1,
        from <= to,
    ensures
        interleaved(buffers, channels, from, to + 1) == interleaved(buffers, channels, from, to)
            + crate::block::frame_at(buffers, channels, to as int),
        crate::rtp::payload_of(interleaved(buffers, channels, from, to + 1))
            == crate::rtp::payload_of(interleaved(buffers, channels, from, to))
            + crate::rtp::payload_of(crate::block::frame_at(buffers, channels, to as int)),
{
    let c = channels as int;
    let k = to - from;
    let longer = interleaved(buffers, channels, from, to + 1);
    let shorter = interleaved(buffers, channels, from, to);
    let frame = crate::block::frame_at(buffers, channels, to as int);
    assert((k + 1) * c == k * c + c) by (nonlinear_arith);
    assert(k * c >= 0) by (nonlinear_arith)
        requires
            k >= 0,
            c >= 1,
    ;
    assert forall|i: int| k * c <= i < k * c + c implies #[trigger] longer[i] == frame[i - k * c] by {
        vstd::arithmetic::div_mod::lemma_fundamental_div_mod_converse(i, c, k, i - k * c);
    }
    assert(longer =~= shorter + frame);
    assert(crate::rtp::payload_of(shorter + frame) =~= crate::rtp::payload_of(shorter)
        + crate::rtp::payload_of(frame));
}

/// The packet of a stream that comes `k` packets behind the one that a state has begun.
pub open spec fn nth_packet(
    state: Outgoing,
    buffers: Seq<Option<Seq<u32>>>,
    stream: ActiveStream,
    k: int,
) -> Seq<u8> {
    let size = stream.level.frames();
    crate::rtp::rtp_packet(
        ((state.sequence + k) % 0x1_0000) as u16,
        ((state.timestamp + k * size) % 0x1_0000_0000) as u32,
        state.ssrc,
        crate::rtp::payload_of(
            interleaved(
                buffers,
                stream.params.channels as nat,
                (k * size) as nat,
                (k * size + size) as nat,
            ),
        ),
    )
}

/// Some packets of a stream, the first of them `first` packets behind the one that a state has
/// begun.
pub open spec fn packets_from(
    state: Outgoing,
    buffers: Seq<Option<Seq<u32>>>,
    stream: ActiveStream,
    first: nat,
    count: nat,
) -> Seq<Seq<u8>> {
    Seq::new(count, |k: int| nth_packet(state, buffers, stream, first + k))
}

/// Whether a sender, `whole` packets behind the one that it began with at `start`, has put `rest`
/// frames into the next.
pub open spec fn has_begun(
    start: Outgoing,
    buffers: Seq<Option<Seq<u32>>>,
    stream: ActiveStream,
    whole: nat,
    rest: nat,
    state: Outgoing,
) -> bool {
    let done = whole * stream.level.frames();
    &&& state.pending_frames == rest
    &&& state.pending == crate::rtp::payload_of(
        interleaved(buffers, stream.params.channels as nat, done, done + rest),
    )
    &&& state.sequence == (start.sequence + whole) % 0x1_0000
    &&& state.timestamp == (start.timestamp + done) % 0x1_0000_0000
    &&& state.ssrc == start.ssrc
}

/// Whether a sender has taken the first `taken` frames of a stream since it stood at `start`, where
/// a packet begins. The packet that it fills holds those that made no whole packet. Which of the
/// whole packets wait, and which the worker has collected, makes no difference.
pub open spec fn has_taken(
    start: Outgoing,
    buffers: Seq<Option<Seq<u32>>>,
    stream: ActiveStream,
    taken: nat,
    state: Outgoing,
) -> bool {
    has_begun(
        start,
        buffers,
        stream,
        taken / stream.level.frames(),
        taken % stream.level.frames(),
        state,
    )
}

/// Whether a callback's buffers hold the frames of a stream from `taken` on.
pub open spec fn continues(
    buffers: Seq<Option<Seq<u32>>>,
    stream: ActiveStream,
    taken: nat,
    given: Seq<Option<Seq<u32>>>,
    frames: nat,
) -> bool {
    forall|f: int|
        0 <= f < frames ==> #[trigger] crate::block::frame_at(
            given,
            stream.params.channels as nat,
            f,
        ) == crate::block::frame_at(buffers, stream.params.channels as nat, taken + f)
}

/// No frames make no payload.
proof fn lemma_no_frames(buffers: Seq<Option<Seq<u32>>>, channels: nat, at: nat)
    ensures
        crate::rtp::payload_of(interleaved(buffers, channels, at, at)) == Seq::<u8>::empty(),
{
    assert((at - at) * channels == 0) by (nonlinear_arith);
    assert(crate::rtp::payload_of(interleaved(buffers, channels, at, at)) =~= Seq::<u8>::empty());
}

/// Numbers and time stamps go on where they left off.
proof fn lemma_wraps(start: int, done: int, more: int, modulus: int)
    requires
        modulus > 0,
    ensures
        ((start + done) % modulus + more) % modulus == (start + done + more) % modulus,
{
    vstd::arithmetic::div_mod::lemma_add_mod_noop(start + done, more, modulus);
    vstd::arithmetic::div_mod::lemma_add_mod_noop((start + done) % modulus, more, modulus);
    vstd::arithmetic::div_mod::lemma_mod_twice(start + done, modulus);
}

/// The packet that a state has filled is the next, and the one behind it is begun.
proof fn lemma_next_packet(
    start: Outgoing,
    buffers: Seq<Option<Seq<u32>>>,
    stream: ActiveStream,
    whole: nat,
    filled: Outgoing,
)
    requires
        has_begun(start, buffers, stream, whole, stream.level.frames(), filled),
    ensures
        filled.packet() == nth_packet(start, buffers, stream, whole as int),
        has_begun(start, buffers, stream, whole + 1, 0, filled.flushed(stream.level.frames())),
{
    let size = stream.level.frames();
    let done = whole * size;
    assert(whole as int * size == done);
    assert(filled.sequence == ((start.sequence + whole) % 0x1_0000) as u16);
    assert(filled.timestamp == ((start.timestamp + done) % 0x1_0000_0000) as u32);
    assert((whole + 1) * size == done + size) by (nonlinear_arith)
        requires
            done == whole * size,
    ;
    lemma_no_frames(buffers, stream.params.channels as nat, done + size);
    lemma_wraps(start.sequence as int, whole as int, 1, 0x1_0000);
    lemma_wraps(start.timestamp as int, done as int, size as int, 0x1_0000_0000);
}

/// One frame more.
#[verifier::spinoff_prover]
proof fn lemma_takes_a_frame(
    start: Outgoing,
    buffers: Seq<Option<Seq<u32>>>,
    stream: ActiveStream,
    whole: nat,
    rest: nat,
    entry: Outgoing,
)
    requires
        stream.wf(),
        rest < stream.level.frames(),
        has_begun(start, buffers, stream, whole, rest, entry),
    ensures
        ({
            let size = stream.level.frames();
            let after = entry.with_frame(
                crate::block::frame_at(
                    buffers,
                    stream.params.channels as nat,
                    (whole * size + rest) as int,
                ),
                size,
            );
            &&& after.worker_gone == entry.worker_gone
            &&& if rest + 1 == size {
                &&& has_begun(start, buffers, stream, whole + 1, 0, after)
                &&& after.outbox == if entry.has_room() {
                    entry.outbox.push(nth_packet(start, buffers, stream, whole as int))
                } else {
                    entry.outbox
                }
            } else {
                &&& has_begun(start, buffers, stream, whole, rest + 1, after)
                &&& after.outbox == entry.outbox
            }
        }),
{
    let size = stream.level.frames();
    let channels = stream.params.channels as nat;
    let done = whole * size;
    let at = done + rest;
    let frame = crate::block::frame_at(buffers, channels, at as int);
    lemma_interleaved_grows(buffers, channels, done, at);
    let filled = Outgoing {
        pending: entry.pending + crate::rtp::payload_of(frame),
        pending_frames: rest + 1,
        ..entry
    };
    assert(has_begun(start, buffers, stream, whole, rest + 1, filled));
    if rest + 1 == size {
        lemma_next_packet(start, buffers, stream, whole, filled);
    }
}

/// A sender that has just joined a stream has taken nothing of it.
pub proof fn law_joined_sender_has_taken_nothing(
    buffers: Seq<Option<Seq<u32>>>,
    stream: ActiveStream,
    ssrc: u32,
)
    requires
        stream.wf(),
    ensures
        has_taken(
            Outgoing::joined(stream, ssrc),
            buffers,
            stream,
            0,
            Outgoing::joined(stream, ssrc),
        ),
{
    let size = stream.level.frames();
    assert(size == 48 || size == 44 || size == 96);
    assert(0nat / size == 0 && 0nat % size == 0);
    assert(0nat * size == 0) by (nonlinear_arith);
    lemma_no_frames(buffers, stream.params.channels as nat, 0);
}

/// What a sender hands on of a stream in a callback, wherever in a packet it stands: packet after
/// packet of the frames, in order and without a gap, numbered on from where it began, each stamped
/// with the time of its first frame. Where there is room for some of the packets only, those are
/// the first. What is left is pending, and the next callback goes on from there.
pub proof fn law_packets_hold_the_frames(
    start: Outgoing,
    buffers: Seq<Option<Seq<u32>>>,
    stream: ActiveStream,
    taken: nat,
    state: Outgoing,
    given: Seq<Option<Seq<u32>>>,
    frames: nat,
)
    requires
        stream.wf(),
        has_taken(start, buffers, stream, taken, state),
        continues(buffers, stream, taken, given, frames),
    ensures
        ({
            let size = stream.level.frames();
            let first = taken / size;
            let filled = ((taken + frames) / size - first) as nat;
            let after = state.with_frames(given, stream, frames);
            &&& has_taken(start, buffers, stream, taken + frames, after)
            &&& after.outbox == state.outbox + packets_from(
                start,
                buffers,
                stream,
                first,
                state.fitting(filled),
            )
            &&& after.worker_gone == state.worker_gone
            &&& (taken + frames) / size >= first
        }),
    decreases frames,
{
    let size = stream.level.frames();
    let sizes = size as int;
    let first = taken / size;
    assert(sizes == 48 || sizes == 44 || sizes == 96);
    if frames == 0 {
        assert(state.outbox =~= state.outbox + packets_from(start, buffers, stream, first, 0));
    } else {
        let before = (taken + frames - 1) as nat;
        let whole = before / size;
        let rest = before % size;
        assert(before == whole * size + rest && rest < size) by {
            vstd::arithmetic::div_mod::lemma_fundamental_div_mod(before as int, sizes);
            assert(sizes * (before as int / sizes) == (before as int / sizes) * sizes)
                by (nonlinear_arith);
        }
        lemma_count(before as int, sizes, whole as int, rest as int);
        law_packets_hold_the_frames(
            start,
            buffers,
            stream,
            taken,
            state,
            given,
            (frames - 1) as nat,
        );
        let entry = state.with_frames(given, stream, (frames - 1) as nat);
        let after = state.with_frames(given, stream, frames);
        let channels = stream.params.channels as nat;
        assert(crate::block::frame_at(given, channels, frames - 1) == crate::block::frame_at(
            buffers,
            channels,
            before as int,
        ));
        lemma_takes_a_frame(start, buffers, stream, whole, rest, entry);
        let filled = (whole - first) as nat;
        if rest + 1 < size {
            vstd::arithmetic::div_mod::lemma_fundamental_div_mod_converse(
                taken + frames as int,
                sizes,
                whole as int,
                (rest + 1) as int,
            );
        } else {
            vstd::arithmetic::div_mod::lemma_fundamental_div_mod_converse(
                taken + frames as int,
                sizes,
                (whole + 1) as int,
                0,
            );
            assert(after.outbox =~= state.outbox + packets_from(
                start,
                buffers,
                stream,
                first,
                state.fitting(filled + 1),
            ));
        }
    }
}

/// The buffers without their first frames.
pub open spec fn later(buffers: Seq<Option<Seq<u32>>>, frames: int) -> Seq<Option<Seq<u32>>> {
    Seq::new(
        buffers.len(),
        |c: int|
            match buffers[c] {
                None => None,
                Some(b) => Some(b.skip(frames)),
            },
    )
}

/// How the host cuts the audio into callbacks makes no difference to the packets.
pub proof fn law_callback_size_makes_no_difference(
    state: Outgoing,
    buffers: Seq<Option<Seq<u32>>>,
    stream: ActiveStream,
    first: nat,
    second: nat,
)
    requires
        stream.wf(),
        buffers.len() == MAX_CHANNELS,
        crate::block::covers(buffers, stream.params.channels as int, first + second as int),
    ensures
        state.with_frames(buffers, stream, first).with_frames(
            later(buffers, first as int),
            stream,
            second,
        ) == state.with_frames(buffers, stream, first + second),
    decreases second,
{
    if second > 0 {
        let channels = stream.params.channels as nat;
        law_callback_size_makes_no_difference(state, buffers, stream, first, (second - 1) as nat);
        assert(crate::block::frame_at(later(buffers, first as int), channels, second - 1)
            =~= crate::block::frame_at(buffers, channels, first + second - 1));
    }
}

/// A sender that was reset starts the stream afresh, whatever it had: with an empty packet, the
/// first sequence number, and the source that it is given.
pub proof fn law_reset_sender_starts_afresh(sender: NetworkSender, stream: ActiveStream, ssrc: u32)
    requires
        sender.resetting(),
    ensures
        sender.start_of(stream, ssrc) == Outgoing::joined(stream, ssrc),
{
}

/// The samples of a frame stand together, each channel's at its place, and frame follows frame.
pub proof fn law_interleaved_samples_keep_their_places(
    buffers: Seq<Option<Seq<u32>>>,
    channels: nat,
    from: nat,
    to: nat,
    frame: int,
    channel: int,
)
    requires
        from <= to,
        0 <= frame < to - from,
        0 <= channel < channels,
    ensures
        interleaved(buffers, channels, from, to).len() == (to - from) * channels,
        0 <= frame * channels + channel < (to - from) * channels,
        interleaved(buffers, channels, from, to)[frame * channels + channel] == (
        match buffers[channel] {
            Some(buffer) => buffer[from + frame],
            None => 0u32,
        }),
{
    let wide = channels as int;
    let at = frame * wide + channel;
    let count = to - from;
    assert(0 <= at < count * wide) by (nonlinear_arith)
        requires
            0 <= frame < count,
            0 <= channel < wide,
            at == frame * wide + channel,
    ;
    vstd::arithmetic::div_mod::lemma_fundamental_div_mod_converse(at, wide, frame, channel);
}

/// A sender sends where it is switched on, its address is one that can be sent to, and it has 1 to 96
/// channels at 44.1, 48 or 96 kHz: to every host but 0.0.0.0 and 255.255.255.255 by unicast, and to
/// every group from 224.0.0.0 to 239.255.255.255 by multicast. It sends the stream that is set.
pub proof fn law_senders_send_what_is_set(params: StreamParameters, sample_rate_hz: u32)
    ensures
        sent_stream(params, sample_rate_hz) is Some <==> {
            &&& params.enabled
            &&& 1 <= params.channels <= 96
            &&& sample_rate_hz == 44_100 || sample_rate_hz == 48_000 || sample_rate_hz == 96_000
            &&& if params.transport == crate::stream::StreamTransport::Multicast {
                224 <= params.ip@[0] <= 239
            } else {
                &&& !(params.ip@[0] == 0 && params.ip@[1] == 0 && params.ip@[2] == 0 && params.ip@[3]
                    == 0)
                &&& !(params.ip@[0] == 255 && params.ip@[1] == 255 && params.ip@[2] == 255
                    && params.ip@[3] == 255)
            }
        },
        sent_stream(params, sample_rate_hz) matches Some(stream) ==> stream.params == params
            && stream.level.rate() == sample_rate_hz && stream.wf(),
{
    crate::stream::law_every_host_and_group_is_a_destination(params);
}

/// A callback of a stream that is not being sent yet asks for a worker, and begins the stream with
/// its own first frame: as many packets as the frames fill, the first numbered and stamped zero. A
/// callback of the stream that is being sent leaves the worker alone and goes on.
pub proof fn law_callbacks_join_a_stream_once(
    before: &NetworkSender,
    params: StreamParameters,
    sample_rate_hz: u32,
    inputs: Seq<Option<Seq<u32>>>,
    frames: nat,
    ssrc: u32,
    after: &NetworkSender,
    order: WorkerOrder,
)
    requires
        pushed_audio(before, params, sample_rate_hz, inputs, frames, ssrc, after, order),
        sent_stream(params, sample_rate_hz) is Some,
    ensures
        ({
            let stream = sent_stream(params, sample_rate_hz)->0;
            let size = stream.level.frames();
            let sending = !before.resetting() && before.outgoing().stream == Some(stream)
                && before.outgoing().connected;
            &&& sending ==> order == WorkerOrder::Keep
            &&& !sending ==> {
                let out = after.outgoing();
                &&& order == WorkerOrder::Start(stream)
                &&& out.ssrc == ssrc
                &&& frames / size <= 256 ==> out.outbox.len() == frames / size
                &&& forall|k: int|
                    0 <= k < out.outbox.len() ==> #[trigger] out.outbox[k] == crate::rtp::rtp_packet(
                        (k % 0x1_0000) as u16,
                        (k * size % 0x1_0000_0000) as u32,
                        ssrc,
                        crate::rtp::payload_of(
                            interleaved(
                                inputs,
                                params.channels as nat,
                                (k * size) as nat,
                                (k * size + size) as nat,
                            ),
                        ),
                    )
                &&& out.pending_frames == frames % size
                &&& out.sequence == frames / size % 0x1_0000
            }
            &&& after.outgoing().stream == Some(stream)
            &&& after.outgoing().connected
        }),
{
    let stream = sent_stream(params, sample_rate_hz)->0;
    let size = stream.level.frames();
    law_senders_send_what_is_set(params, sample_rate_hz);
    let start = before.start_of(stream, ssrc);
    lemma_stream_stays(start, inputs, stream, frames);
    if !before.start(ssrc).sends_stream(stream) {
        law_joined_sender_has_taken_nothing(inputs, stream, ssrc);
        law_packets_hold_the_frames(start, inputs, stream, 0, start, inputs, frames);
        assert(0nat / size == 0);
        let out = after.outgoing();
        assert(out.outbox =~= packets_from(start, inputs, stream, 0, start.fitting(frames / size)));
        assert forall|k: int| 0 <= k < out.outbox.len() implies #[trigger] out.outbox[k]
            == crate::rtp::rtp_packet(
            (k % 0x1_0000) as u16,
            (k * size % 0x1_0000_0000) as u32,
            ssrc,
            crate::rtp::payload_of(
                interleaved(
                    inputs,
                    params.channels as nat,
                    (k * size) as nat,
                    (k * size + size) as nat,
                ),
            ),
        ) by {
            assert(out.outbox[k] == nth_packet(start, inputs, stream, 0 + k));
        }
    }
}

/// Frames do not change which stream is sent.
proof fn lemma_stream_stays(
    state: Outgoing,
    buffers: Seq<Option<Seq<u32>>>,
    stream: ActiveStream,
    frames: nat,
)
    ensures
        state.with_frames(buffers, stream, frames).stream == state.stream,
        state.with_frames(buffers, stream, frames).connected == state.connected,
    decreases frames,
{
    if frames > 0 {
        lemma_stream_stays(state, buffers, stream, (frames - 1) as nat);
    }
}

/// A sender that is off, has nowhere to send to or has no level for its rate asks for no worker and
/// hands nothing on.
pub proof fn law_senders_without_a_stream_send_nothing(
    before: &NetworkSender,
    params: StreamParameters,
    sample_rate_hz: u32,
    inputs: Seq<Option<Seq<u32>>>,
    frames: nat,
    ssrc: u32,
    after: &NetworkSender,
    order: WorkerOrder,
)
    requires
        pushed_audio(before, params, sample_rate_hz, inputs, frames, ssrc, after, order),
        sent_stream(params, sample_rate_hz) is None,
    ensures
        order == WorkerOrder::Keep,
        !before.resetting() ==> after.outgoing() == before.outgoing(),
        before.resetting() ==> after.outgoing().outbox.len() == 0 && after.outgoing().stream is None,
        after.status().queued_frames == 0,
        after.status().packets_sent == before.status().packets_sent,
        after.status().packets_dropped == before.status().packets_dropped,
{
}

/// Turning left by 13 bits moves the upper 13 of the 32 bits below the rest.
pub proof fn law_turning_left_moves_the_upper_bits_down(upper: int, lower: int)
    requires
        0 <= upper < 0x2000,
        0 <= lower < 0x8_0000,
    ensures
        turned_left_13(upper * 0x8_0000 + lower) == lower * 0x2000 + upper,
{
}

/// Reporting a departure counts it once, as sent or as dropped, and changes nothing else.
pub proof fn law_departures_are_counted_once(status: SenderStatus, sent: bool)
    ensures
        ({
            let after = status.with_departure(sent);
            &&& sent && status.packets_sent < u64::MAX ==> after == (SenderStatus {
                packets_sent: (status.packets_sent + 1) as u64,
                ..status
            })
            &&& !sent && status.packets_dropped < u64::MAX ==> after == (SenderStatus {
                packets_dropped: (status.packets_dropped + 1) as u64,
                ..status
            })
        }),
{
}

/// A callback of the stream that is being sent goes on where the one before it ended: the packets that
/// its frames fill go behind those that wait, as far as there is room, and what is left is pending.
pub proof fn law_callbacks_go_on_with_the_stream(
    origin: Outgoing,
    audio: Seq<Option<Seq<u32>>>,
    taken: nat,
    before: &NetworkSender,
    params: StreamParameters,
    sample_rate_hz: u32,
    inputs: Seq<Option<Seq<u32>>>,
    frames: nat,
    ssrc: u32,
    after: &NetworkSender,
    order: WorkerOrder,
)
    requires
        pushed_audio(before, params, sample_rate_hz, inputs, frames, ssrc, after, order),
        sent_stream(params, sample_rate_hz) is Some,
        !before.resetting(),
        before.outgoing().sends_stream(sent_stream(params, sample_rate_hz)->0),
        has_taken(
            origin,
            audio,
            sent_stream(params, sample_rate_hz)->0,
            taken,
            before.outgoing(),
        ),
        continues(audio, sent_stream(params, sample_rate_hz)->0, taken, inputs, frames),
    ensures
        ({
            let stream = sent_stream(params, sample_rate_hz)->0;
            let size = stream.level.frames();
            let first = taken / size;
            let filled = ((taken + frames) / size - first) as nat;
            &&& has_taken(origin, audio, stream, taken + frames, after.outgoing())
            &&& after.outgoing().outbox == before.outgoing().outbox + packets_from(
                origin,
                audio,
                stream,
                first,
                before.outgoing().fitting(filled),
            )
        }),
{
    let stream = sent_stream(params, sample_rate_hz)->0;
    law_senders_send_what_is_set(params, sample_rate_hz);
    law_packets_hold_the_frames(origin, audio, stream, taken, before.outgoing(), inputs, frames);
}

/// Up to 256 packets wait for the worker. Those that find no room are given up, and each of them is
/// counted as dropped. The frames of the packet that is being filled are reported.
pub proof fn law_packets_without_room_are_counted(
    before: &NetworkSender,
    params: StreamParameters,
    sample_rate_hz: u32,
    inputs: Seq<Option<Seq<u32>>>,
    frames: nat,
    ssrc: u32,
    after: &NetworkSender,
    order: WorkerOrder,
)
    requires
        pushed_audio(before, params, sample_rate_hz, inputs, frames, ssrc, after, order),
        sent_stream(params, sample_rate_hz) is Some,
        before.start_of(sent_stream(params, sample_rate_hz)->0, ssrc).outbox.len() <= 256,
    ensures
        ({
            let stream = sent_stream(params, sample_rate_hz)->0;
            let start = before.start_of(stream, ssrc);
            let filled = (start.pending_frames + frames) / stream.level.frames();
            let handed_on = after.outgoing().outbox.len() - start.outbox.len();
            &&& after.status().packets_dropped == (before.status().packets_dropped + filled
                - handed_on) % 0x1_0000_0000_0000_0000
            &&& after.status().packets_sent == before.status().packets_sent
            &&& after.status().active == before.status().active
            &&& after.status().queued_frames == after.outgoing().pending_frames as usize
        }),
{
    let stream = sent_stream(params, sample_rate_hz)->0;
    let start = before.start_of(stream, ssrc);
    assert(start.connected && start.stream == Some(stream));
}

/// A sender takes a packet where its worker is there and fewer than 256 wait, and as many of several as
/// there is room for.
pub proof fn law_there_is_room_for_256_packets(state: Outgoing, packets: nat)
    ensures
        state.worker_gone ==> state.fitting(packets) == 0,
        !state.worker_gone && state.outbox.len() + packets <= 256 && packets > 0 ==> state.fitting(
            packets,
        ) == packets,
        !state.worker_gone && state.outbox.len() <= 256 < state.outbox.len() + packets
            ==> state.fitting(packets) == 256 - state.outbox.len(),
        state.fitting(packets) <= packets,
{
}

/// The packets of a stream are numbered one by one and stamped with the frames before them, both going
/// round at their end. Each holds its own frames, from the source of the stream.
pub proof fn law_packets_are_numbered_and_stamped(
    state: Outgoing,
    buffers: Seq<Option<Seq<u32>>>,
    stream: ActiveStream,
    k: nat,
)
    ensures
        ({
            let packet = nth_packet(state, buffers, stream, k as int);
            let size = stream.level.frames();
            let stamp = (state.timestamp + k * size) % 0x1_0000_0000;
            &&& packet[2] * 256 + packet[3] == (state.sequence + k) % 0x1_0000
            &&& ((packet[4] * 256 + packet[5]) * 256 + packet[6]) * 256 + packet[7] == stamp
            &&& ((packet[8] * 256 + packet[9]) * 256 + packet[10]) * 256 + packet[11] == state.ssrc
            &&& packet.skip(12) == crate::rtp::payload_of(
                interleaved(
                    buffers,
                    stream.params.channels as nat,
                    k * size,
                    k * size + size,
                ),
            )
        }),
{
    let size = stream.level.frames();
    crate::rtp::law_sent_packets_lie_in_network_order(
        ((state.sequence + k) % 0x1_0000) as u16,
        ((state.timestamp + k * size) % 0x1_0000_0000) as u32,
        state.ssrc,
        crate::rtp::payload_of(
            interleaved(buffers, stream.params.channels as nat, k * size, k * size + size),
        ),
    );
}

/// A packet that was filled is handed on as it is, where there is room, and the next one is one number
/// and as many frames further on.
pub proof fn law_filled_packets_are_handed_on(state: Outgoing, packet_frames: nat)
    ensures
        ({
            let after = state.flushed(packet_frames);
            &&& after.sequence == (state.sequence + 1) % 0x1_0000
            &&& after.timestamp == (state.timestamp + packet_frames) % 0x1_0000_0000
            &&& after.pending.len() == 0
            &&& after.pending_frames == 0
            &&& !state.worker_gone && state.outbox.len() < 256 ==> after.outbox == state.outbox.push(
                crate::rtp::rtp_packet(state.sequence, state.timestamp, state.ssrc, state.pending),
            )
            &&& state.worker_gone || state.outbox.len() >= 256 ==> after.outbox == state.outbox
        }),
{
}

} // verus!
