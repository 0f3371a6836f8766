//! The receiving end of a stream: what its worker does with a datagram, and what its audio
//! callback does with what the worker took.

use crate::block::AudioBlock;
use crate::playout::ReceiverAudioState;
use crate::rtp::{
    classify_invalid_packet, decode_rtp_l24_packet_fixed, parse_rtp_sequence, InvalidPacketKind,
    ReceiverPacket,
};
use crate::stream::{stream_level, ActiveStream, Endpoint, StreamLevel, StreamParameters};
use std::collections::VecDeque;
use vstd::prelude::*;

verus! {

/// How many packets wait between the worker and the audio callback at most.
pub const RECEIVE_QUEUE_PACKETS: usize = 512;

/// What a worker does with a datagram.
pub enum Intake {
    /// It came from elsewhere and is ignored.
    Foreign,
    /// It does not hold a packet of the stream.
    Invalid(InvalidPacketKind),
    /// It goes to the audio callback.
    Packet(ReceiverPacket),
}

/// Whether a datagram of a stream's source holds a packet of the stream.
pub open spec fn fits_stream(stream: ActiveStream, packet: Seq<u8>) -> bool {
    crate::rtp::holds_frames(packet, stream.params.channels, stream.level.frames())
}

/// Whether an intake is what a worker does with a datagram. A datagram that holds a packet of the
/// stream gives its sequence number and its samples.
pub open spec fn is_intake(
    stream: ActiveStream,
    source: Endpoint,
    packet: Seq<u8>,
    intake: Intake,
) -> bool {
    if !stream.params.takes_from(source.ip) {
        intake is Foreign
    } else if !fits_stream(stream, packet) {
        intake == Intake::Invalid(
            crate::rtp::invalid_kind(packet, stream.params.channels, stream.level.frames()),
        )
    } else {
        intake matches Intake::Packet(p) && p.wf() && packet_content(p) == datagram_content(packet)
    }
}

/// What a packet holds: its sequence number and its samples.
pub open spec fn packet_content(packet: ReceiverPacket) -> (u16, Seq<u32>) {
    (packet.sequence, packet.audio())
}

/// What a datagram holds: its sequence number and its samples.
pub open spec fn datagram_content(packet: Seq<u8>) -> (u16, Seq<u32>) {
    (
        crate::rtp::sequence_of(packet),
        crate::rtp::samples_of(crate::rtp::payload(packet)),
    )
}

/// What a worker does with a datagram.
pub fn receive_datagram(stream: ActiveStream, source: Endpoint, packet: &[u8]) -> (intake: Intake)
    ensures
        is_intake(stream, source, packet@, intake),
{
    if !stream.params.accepts_source(source) {
        return Intake::Foreign;
    }
    let sequence: u16 = match parse_rtp_sequence(packet) {
        None => {
            return Intake::Invalid(InvalidPacketKind::Header);
        },
        Some(sequence) => sequence,
    };
    let frames: usize = stream.level.packet_frames();
    match decode_rtp_l24_packet_fixed(packet, stream.params.channels, frames) {
        None => Intake::Invalid(classify_invalid_packet(packet, stream.params.channels, frames)),
        Some(decoded) => {
            let taken = ReceiverPacket {
                sequence,
                sample_count: decoded.sample_count,
                samples: decoded.samples,
            };
            proof {
                assert(taken.audio() =~= decoded.audio());
            }
            Intake::Packet(taken)
        },
    }
}

/// What a receiver reports.
#[derive(Clone, Copy, Debug, PartialEq, Eq, Structural)]
pub struct ReceiverStatus {
    pub active: bool,
    pub primed: bool,
    pub queued_samples: usize,
    pub target_buffer_samples: usize,
    pub last_callback_frames: usize,
    pub packets_received: u64,
    pub packets_dropped: u64,
    pub packets_invalid: u64,
    pub packets_invalid_header: u64,
    pub packets_invalid_format: u64,
    pub packets_invalid_frame_mismatch: u64,
    pub last_invalid_samples: usize,
    pub packets_lost: u64,
    pub packets_out_of_order: u64,
    pub underruns: u64,
    pub drift_corrections: u64,
}

impl ReceiverStatus {
    /// Nothing has happened.
    pub open spec fn cleared() -> ReceiverStatus {
        ReceiverStatus {
            active: false,
            primed: false,
            queued_samples: 0,
            target_buffer_samples: 0,
            last_callback_frames: 0,
            packets_received: 0,
            packets_dropped: 0,
            packets_invalid: 0,
            packets_invalid_header: 0,
            packets_invalid_format: 0,
            packets_invalid_frame_mismatch: 0,
            last_invalid_samples: 0,
            packets_lost: 0,
            packets_out_of_order: 0,
            underruns: 0,
            drift_corrections: 0,
        }
    }

    /// After the audio callback published its side.
    pub open spec fn published(self, playout: crate::playout::Playout) -> ReceiverStatus {
        ReceiverStatus {
            primed: playout.primed,
            queued_samples: playout.queue.len() as usize,
            target_buffer_samples: playout.target_buffer_samples,
            last_callback_frames: playout.last_callback_frames,
            packets_received: playout.packets_received,
            packets_lost: playout.packets_lost,
            packets_out_of_order: playout.packets_out_of_order,
            underruns: playout.underruns,
            drift_corrections: playout.drift_corrections,
            ..self
        }
    }

    /// What the counts of the three ways of being invalid come to.
    pub open spec fn invalid_in_any_way(self) -> nat {
        self.packets_invalid_header as nat + self.packets_invalid_format as nat
            + self.packets_invalid_frame_mismatch as nat
    }

    /// After the worker met a datagram that holds no packet of the stream.
    pub open spec fn with_invalid(self, kind: InvalidPacketKind) -> ReceiverStatus {
        let counted = ReceiverStatus {
            packets_invalid: wrapped(self.packets_invalid),
            ..self
        };
        match kind {
            InvalidPacketKind::Header => ReceiverStatus {
                packets_invalid_header: wrapped(self.packets_invalid_header),
                ..counted
            },
            InvalidPacketKind::Format => ReceiverStatus {
                packets_invalid_format: wrapped(self.packets_invalid_format),
                ..counted
            },
            InvalidPacketKind::FrameMismatch { actual_samples } => ReceiverStatus {
                packets_invalid_frame_mismatch: wrapped(self.packets_invalid_frame_mismatch),
                last_invalid_samples: actual_samples,
                ..counted
            },
        }
    }
}

/// A counter's next value. It starts over behind its end.
pub open spec fn wrapped(counter: u64) -> u64 {
    if counter == u64::MAX {
        0
    } else {
        (counter + 1) as u64
    }
}

/// What a counter shows that has counted to a number. It starts over behind its end.
#[verifier::opaque]
pub open spec fn tally(count: nat) -> u64 {
    (count % 0x1_0000_0000_0000_0000) as u64
}

/// Counters count.
pub proof fn lemma_tally_counts(count: nat)
    ensures
        tally(0) == 0,
        tally(count + 1) == wrapped(tally(count)),
{
    reveal(tally);
}

impl Default for ReceiverStatus {
    fn default() -> (status: Self)
        ensures
            status == ReceiverStatus::cleared(),
    {
        ReceiverStatus {
            active: false,
            primed: false,
            queued_samples: 0,
            target_buffer_samples: 0,
            last_callback_frames: 0,
            packets_received: 0,
            packets_dropped: 0,
            packets_invalid: 0,
            packets_invalid_header: 0,
            packets_invalid_format: 0,
            packets_invalid_frame_mismatch: 0,
            last_invalid_samples: 0,
            packets_lost: 0,
            packets_out_of_order: 0,
            underruns: 0,
            drift_corrections: 0,
        }
    }
}

/// What is to be done about a stream's worker.
pub enum WorkerOrder {
    /// Leave it as it is.
    Keep,
    /// Stop it, and start one for this stream.
    Start(ActiveStream),
}

/// The stream that a receiver plays: none where it is off, has no endpoint to listen at, or there
/// is no level for the sample rate.
pub open spec fn received_stream(params: StreamParameters, sample_rate_hz: u32) -> Option<
    ActiveStream,
> {
    match crate::stream::level_of(sample_rate_hz, params.channels) {
        Some(level) if params.enabled && params.has_listener() => Some(
            ActiveStream { params, level },
        ),
        _ => None,
    }
}

/// The receiving end of a stream.
pub struct NetworkReceiver {
    audio: ReceiverAudioState,
    reset_requested: bool,
    status: ReceiverStatus,
}

/// What a receiver has after a callback.
pub open spec fn pulled_playout(
    start: crate::playout::Playout,
    params: StreamParameters,
    sample_rate_hz: u32,
    frames: nat,
    packets: Seq<ReceiverPacket>,
    gone: bool,
    now: u64,
) -> crate::playout::Playout {
    match received_stream(params, sample_rate_hz) {
        None => start,
        Some(stream) => if start.plays_stream(stream) {
            start.pulled(packets, gone, now, stream.level, params.channels, frames)
        } else {
            crate::playout::Playout::joined(stream).played(stream.level, params.channels, frames)
        },
    }
}

/// What the buffers of a callback hold after it. Where there is no stream to receive, all are
/// silenced.
pub open spec fn pulled_buffers(
    start: crate::playout::Playout,
    params: StreamParameters,
    sample_rate_hz: u32,
    buffers: Seq<Option<Seq<u32>>>,
    frames: nat,
    packets: Seq<ReceiverPacket>,
    gone: bool,
    now: u64,
) -> Seq<Option<Seq<u32>>> {
    let channels = params.channels;
    match received_stream(params, sample_rate_hz) {
        None => crate::block::hushed(buffers),
        Some(stream) => crate::block::rendered(
            buffers,
            channels as int,
            0,
            frames as int,
            if start.plays_stream(stream) {
                start.heard(packets, gone, now, stream.level, channels, frames)
            } else {
                crate::block::silence(frames, channels as nat)
            },
        ),
    }
}

/// What a callback leaves of the packets that have arrived: those of another stream are given up.
pub open spec fn pulled_packets(
    start: crate::playout::Playout,
    params: StreamParameters,
    sample_rate_hz: u32,
    packets: Seq<ReceiverPacket>,
) -> Seq<ReceiverPacket> {
    match received_stream(params, sample_rate_hz) {
        None => packets,
        Some(stream) => if start.plays_stream(stream) {
            crate::playout::left_over(packets)
        } else {
            Seq::empty()
        },
    }
}

/// What a callback says about the worker.
pub open spec fn pulled_order(
    start: crate::playout::Playout,
    params: StreamParameters,
    sample_rate_hz: u32,
) -> WorkerOrder {
    match received_stream(params, sample_rate_hz) {
        Some(stream) if !start.plays_stream(stream) => WorkerOrder::Start(stream),
        _ => WorkerOrder::Keep,
    }
}

impl NetworkReceiver {
    pub closed spec fn wf(&self) -> bool {
        self.audio.wf()
    }

    /// What the audio callback has.
    pub closed spec fn playout(&self) -> crate::playout::Playout {
        self.audio@
    }

    /// Whether the next callback starts afresh.
    pub closed spec fn resetting(&self) -> bool {
        self.reset_requested
    }

    /// What is reported.
    pub closed spec fn status(&self) -> ReceiverStatus {
        self.status
    }

    /// What the next callback starts with.
    pub open spec fn start(&self) -> crate::playout::Playout {
        if self.resetting() {
            crate::playout::Playout::fresh()
        } else {
            self.playout()
        }
    }

    /// A receiver that has received nothing.
    pub fn new() -> (receiver: Self)
        ensures
            receiver.wf(),
            receiver.playout() == crate::playout::Playout::fresh(),
            !receiver.resetting(),
            receiver.status() == ReceiverStatus::cleared(),
    {
        NetworkReceiver {
            audio: ReceiverAudioState::new(),
            reset_requested: false,
            status: ReceiverStatus::default(),
        }
    }

    /// Clears what is reported, and lets the next callback start afresh. The worker is to be
    /// stopped.
    pub fn reset(&mut self)
        requires
            old(self).wf(),
        ensures
            final(self).wf(),
            final(self).resetting(),
            final(self).status() == ReceiverStatus::cleared(),
            final(self).playout() == old(self).playout(),
    {
        self.reset_requested = true;
        self.clear_status();
    }

    fn clear_status(&mut self)
        ensures
            final(self).status == ReceiverStatus::cleared(),
            final(self).audio == old(self).audio,
            final(self).reset_requested == old(self).reset_requested,
    {
        self.status = ReceiverStatus::default();
    }

    fn publish_audio_status(&mut self)
        requires
            old(self).wf(),
        ensures
            final(self).audio == old(self).audio,
            final(self).reset_requested == old(self).reset_requested,
            final(self).status == old(self).status.published(old(self).audio@),
    {
        self.status.primed = self.audio.primed;
        self.status.queued_samples = self.audio.queued_samples();
        self.status.target_buffer_samples = self.audio.target_buffer_samples;
        self.status.last_callback_frames = self.audio.last_callback_frames;
        self.status.packets_received = self.audio.packets_received;
        self.status.packets_lost = self.audio.packets_lost;
        self.status.packets_out_of_order = self.audio.packets_out_of_order;
        self.status.underruns = self.audio.underruns;
        self.status.drift_corrections = self.audio.drift_corrections;
    }

    /// Makes sure that the callback plays a stream. Where it does not yet, everything of the stream
    /// before is forgotten, what its worker left included.
    fn ensure_stream(
        &mut self,
        candidate: ActiveStream,
        arrivals: &mut VecDeque<ReceiverPacket>,
    ) -> (order: WorkerOrder)
        requires
            old(self).wf(),
        ensures
            final(self).wf(),
            final(self).reset_requested == old(self).reset_requested,
            final(self).status == old(self).status,
            if old(self).audio@.plays_stream(candidate) {
                &&& order is Keep
                &&& final(self).audio@ == old(self).audio@
                &&& final(arrivals)@ == old(arrivals)@
            } else {
                &&& order == WorkerOrder::Start(candidate)
                &&& final(self).audio@ == crate::playout::Playout::joined(candidate)
                &&& final(arrivals)@ == Seq::<ReceiverPacket>::empty()
            },
    {
        if let Some(current) = self.audio.stream {
            if current.same(candidate) && self.audio.connected {
                return WorkerOrder::Keep;
            }
        }
        self.audio.reset_local();
        arrivals.clear();
        self.audio.stream = Some(candidate);
        self.audio.connected = true;
        WorkerOrder::Start(candidate)
    }

    /// One audio callback. `arrivals` is what the worker has taken, `gone` tells that it will take
    /// no more, and `now` is the time in nanoseconds. The order tells what is to be done about the
    /// worker; where a worker is to be started, what arrived before is given up.
    pub fn pull_audio(
        &mut self,
        params: StreamParameters,
        sample_rate_hz: u32,
        outputs: &mut AudioBlock,
        frames: usize,
        arrivals: &mut VecDeque<ReceiverPacket>,
        gone: bool,
        now: u64,
    ) -> (order: WorkerOrder)
        requires
            old(self).wf(),
            crate::playout::packets_wf(old(arrivals)@),
            old(outputs).wf(),
            received_stream(params, sample_rate_hz) is Some ==> crate::block::covers(
                old(outputs)@,
                params.channels as int,
                frames as int,
            ),
            received_stream(params, sample_rate_hz) matches Some(stream)
                ==> crate::stream::target_samples(
                stream.level,
                params.channels as nat,
                frames as nat,
            ) <= usize::MAX,
        ensures
            final(self).wf(),
            final(outputs).wf(),
            !final(self).resetting(),
            final(self).playout() == pulled_playout(
                old(self).start(),
                params,
                sample_rate_hz,
                frames as nat,
                old(arrivals)@,
                gone,
                now,
            ),
            final(self).status() == old(self).status().published(final(self).playout()),
            final(outputs)@ == pulled_buffers(
                old(self).start(),
                params,
                sample_rate_hz,
                old(outputs)@,
                frames as nat,
                old(arrivals)@,
                gone,
                now,
            ),
            final(arrivals)@ == pulled_packets(
                old(self).start(),
                params,
                sample_rate_hz,
                old(arrivals)@,
            ),
            order == pulled_order(old(self).start(), params, sample_rate_hz),
    {
        if self.reset_requested {
            self.reset_requested = false;
            self.audio.reset_local();
        }
        if !params.enabled || !params.sane_listener() {
            outputs.mute_all();
            self.publish_audio_status();
            return WorkerOrder::Keep;
        }
        let level: StreamLevel = match stream_level(sample_rate_hz, params.channels) {
            None => {
                outputs.mute_all();
                self.publish_audio_status();
                return WorkerOrder::Keep;
            },
            Some(level) => level,
        };
        let candidate = ActiveStream { params, level };
        let order = self.ensure_stream(candidate, arrivals);
        let gone: bool = match order {
            WorkerOrder::Keep => gone,
            WorkerOrder::Start(_) => false,
        };
        let ghost ready = self.audio@;
        proof {
            if order is Start {
                crate::playout::lemma_joined_is_silent(ready, candidate, now, frames as nat);
            }
        }
        self.audio.pull_block(params, level, outputs, frames, arrivals, gone, now);
        proof {
            assert(crate::playout::left_over(Seq::empty()) =~= Seq::<ReceiverPacket>::empty());
        }
        self.publish_audio_status();
        order
    }

    /// What is reported.
    pub fn status_snapshot(&self) -> (status: ReceiverStatus)
        ensures
            status == self.status(),
    {
        self.status
    }

    /// Notes that the worker listens, or that it no longer does.
    pub fn note_active(&mut self, active: bool)
        requires
            old(self).wf(),
        ensures
            final(self).wf(),
            final(self).playout() == old(self).playout(),
            final(self).resetting() == old(self).resetting(),
            final(self).status() == (ReceiverStatus { active, ..old(self).status() }),
    {
        self.status.active = active;
    }

    /// Notes that the worker met a datagram that holds no packet of the stream.
    pub fn note_invalid(&mut self, kind: InvalidPacketKind)
        requires
            old(self).wf(),
        ensures
            final(self).wf(),
            final(self).playout() == old(self).playout(),
            final(self).resetting() == old(self).resetting(),
            final(self).status() == old(self).status().with_invalid(kind),
    {
        self.status.packets_invalid = self.status.packets_invalid.wrapping_add(1);
        match kind {
            InvalidPacketKind::Header => {
                self.status.packets_invalid_header = self.status.packets_invalid_header.wrapping_add(
                    1,
                );
            },
            InvalidPacketKind::Format => {
                self.status.packets_invalid_format = self.status.packets_invalid_format.wrapping_add(
                    1,
                );
            },
            InvalidPacketKind::FrameMismatch { actual_samples } => {
                self.status.packets_invalid_frame_mismatch =
                self.status.packets_invalid_frame_mismatch.wrapping_add(1);
                self.status.last_invalid_samples = actual_samples;
            },
        }
    }

    /// Notes that a packet was given up because too many wait for the audio callback.
    pub fn note_dropped(&mut self)
        requires
            old(self).wf(),
        ensures
            final(self).wf(),
            final(self).playout() == old(self).playout(),
            final(self).resetting() == old(self).resetting(),
            final(self).status() == (ReceiverStatus {
                packets_dropped: wrapped(old(self).status().packets_dropped),
                ..old(self).status()
            }),
    {
        self.status.packets_dropped = self.status.packets_dropped.wrapping_add(1);
    }

    /// Does with a datagram what the worker found to be done: a packet waits for the audio callback
    /// where there is room, and all else is only counted.
    pub fn take_in(&mut self, intake: Intake, arrivals: &mut VecDeque<ReceiverPacket>)
        requires
            old(self).wf(),
        ensures
            final(self).wf(),
            final(self).playout() == old(self).playout(),
            final(self).resetting() == old(self).resetting(),
            (final(arrivals)@, final(self).status()) == taken_in(
                old(arrivals)@,
                old(self).status(),
                intake,
            ),
    {
        match intake {
            Intake::Foreign => {},
            Intake::Invalid(kind) => {
                self.note_invalid(kind);
            },
            Intake::Packet(packet) => {
                if arrivals.len() < RECEIVE_QUEUE_PACKETS {
                    arrivals.push_back(packet);
                } else {
                    self.note_dropped();
                }
            },
        }
    }
}

impl Default for NetworkReceiver {
    fn default() -> (receiver: Self)
        ensures
            receiver.wf(),
            receiver.playout() == crate::playout::Playout::fresh(),
            !receiver.resetting(),
            receiver.status() == ReceiverStatus::cleared(),
    {
        NetworkReceiver::new()
    }
}

/// The packets that wait for the audio callback, and what is reported, after a datagram. A packet
/// waits behind the others. Where too many wait, it is given up and counted as dropped.
pub open spec fn taken_in(
    waiting: Seq<ReceiverPacket>,
    status: ReceiverStatus,
    intake: Intake,
) -> (Seq<ReceiverPacket>, ReceiverStatus) {
    match intake {
        Intake::Foreign => (waiting, status),
        Intake::Invalid(kind) => (waiting, status.with_invalid(kind)),
        Intake::Packet(packet) => if waiting.len() < RECEIVE_QUEUE_PACKETS {
            (waiting.push(packet), status)
        } else {
            (
                waiting,
                ReceiverStatus { packets_dropped: wrapped(status.packets_dropped), ..status },
            )
        },
    }
}

/// What a sender of the same stream puts on the wire, the receiver takes: the packet's sequence
/// number, and its samples as 24 bits carry them.
pub proof fn law_sent_packets_are_received(
    stream: ActiveStream,
    sequence: u16,
    timestamp: u32,
    ssrc: u32,
    samples: Seq<u32>,
)
    requires
        stream.wf(),
        samples.len() == stream.packet_samples(),
    ensures
        ({
            let packet = crate::rtp::rtp_packet(
                sequence,
                timestamp,
                ssrc,
                crate::rtp::payload_of(samples),
            );
            &&& fits_stream(stream, packet)
            &&& crate::rtp::sequence_of(packet) == sequence
            &&& crate::rtp::samples_of(crate::rtp::payload(packet)) == samples.map_values(
                |sample: u32| crate::sample::carried(sample),
            )
        }),
{
    crate::rtp::law_packet_round_trip(sequence, timestamp, ssrc, samples);
    match stream.level {
        StreamLevel::A48k => {},
        StreamLevel::Legacy44k1 => {},
        StreamLevel::AX96k => {},
    }
}

/// Every datagram that is not taken is accounted for: it is foreign, or it is counted as invalid
/// and as invalid in one of three ways.
pub proof fn law_invalid_packets_are_counted_once(status: ReceiverStatus, kind: InvalidPacketKind)
    requires
        status.packets_invalid == tally(status.invalid_in_any_way()),
    ensures
        status.with_invalid(kind).packets_invalid == tally(
            status.with_invalid(kind).invalid_in_any_way(),
        ),
{
    reveal(tally);
}

/// What happens to the packets that wait between the worker and the audio callback.
pub enum InboxEvent {
    /// The worker did with a datagram what was to be done.
    Arrived { source: Endpoint, datagram: Seq<u8>, intake: Intake },
    /// The audio callback took so many of the packets that have waited longest.
    Collected(nat),
}

/// The packets between the worker and the audio callback, and what is reported.
pub struct Inbox {
    pub collected: Seq<ReceiverPacket>,
    pub waiting: Seq<ReceiverPacket>,
    pub status: ReceiverStatus,
}

impl Inbox {
    /// Nothing has arrived.
    pub open spec fn fresh() -> Inbox {
        Inbox {
            collected: Seq::empty(),
            waiting: Seq::empty(),
            status: ReceiverStatus::cleared(),
        }
    }

    /// After an event.
    pub open spec fn after(self, event: InboxEvent) -> Inbox {
        match event {
            InboxEvent::Arrived { intake, .. } => {
                let (waiting, status) = taken_in(self.waiting, self.status, intake);
                Inbox { waiting, status, ..self }
            },
            InboxEvent::Collected(count) => {
                let taken = if count < self.waiting.len() {
                    count as int
                } else {
                    self.waiting.len() as int
                };
                Inbox {
                    collected: self.collected + self.waiting.take(taken),
                    waiting: self.waiting.skip(taken),
                    ..self
                }
            },
        }
    }

    /// After all of some events.
    pub open spec fn after_all(self, events: Seq<InboxEvent>) -> Inbox
        decreases events.len(),
    {
        if events.len() == 0 {
            self
        } else {
            self.after_all(events.drop_last()).after(events.last())
        }
    }

    /// The packets that found room, in the order in which they did, by what they hold.
    pub open spec fn kept(self) -> Seq<(u16, Seq<u32>)> {
        (self.collected + self.waiting).map_values(|p: ReceiverPacket| packet_content(p))
    }
}

/// Whether the events are those of a stream's worker.
pub open spec fn are_events_of(stream: ActiveStream, events: Seq<InboxEvent>) -> bool {
    forall|k: int|
        0 <= k < events.len() ==> (#[trigger] events[k] matches InboxEvent::Arrived {
            source,
            datagram,
            intake,
        } ==> is_intake(stream, source, datagram, intake))
}

/// What the datagrams that hold a packet of the stream hold, in the order in which they arrived.
pub open spec fn packets_arrived(stream: ActiveStream, events: Seq<InboxEvent>) -> Seq<
    (u16, Seq<u32>),
>
    decreases events.len(),
{
    if events.len() == 0 {
        Seq::empty()
    } else {
        let before = packets_arrived(stream, events.drop_last());
        match events.last() {
            InboxEvent::Arrived { source, datagram, .. } => if stream.params.takes_from(source.ip)
                && fits_stream(stream, datagram) {
                before.push(datagram_content(datagram))
            } else {
                before
            },
            InboxEvent::Collected(_) => before,
        }
    }
}

/// How many datagrams of the stream's source held no packet of the stream.
pub open spec fn invalid_arrived(stream: ActiveStream, events: Seq<InboxEvent>) -> nat
    decreases events.len(),
{
    if events.len() == 0 {
        0
    } else {
        let before = invalid_arrived(stream, events.drop_last());
        match events.last() {
            InboxEvent::Arrived { source, datagram, .. } => if stream.params.takes_from(source.ip)
                && !fits_stream(stream, datagram) {
                before + 1
            } else {
                before
            },
            InboxEvent::Collected(_) => before,
        }
    }
}

/// Whether one sequence is another with some of its items left out.
pub open spec fn is_drawn_from<T>(part: Seq<T>, whole: Seq<T>) -> bool
    decreases whole.len(),
{
    if whole.len() == 0 {
        part.len() == 0
    } else {
        ||| is_drawn_from(part, whole.drop_last())
        ||| part.len() > 0 && part.last() == whole.last() && is_drawn_from(
            part.drop_last(),
            whole.drop_last(),
        )
    }
}

/// A whole with one item more.
proof fn lemma_drawn_from_more<T>(part: Seq<T>, whole: Seq<T>, item: T)
    requires
        is_drawn_from(part, whole),
    ensures
        is_drawn_from(part, whole.push(item)),
        is_drawn_from(part.push(item), whole.push(item)),
{
    assert(whole.push(item).drop_last() =~= whole);
    assert(part.push(item).drop_last() =~= part);
}

/// Whether what arrived is accounted for: as invalid in one of three ways, as kept in the order of
/// arrival, or as dropped.
pub open spec fn accounts_for(stream: ActiveStream, events: Seq<InboxEvent>, inbox: Inbox) -> bool {
    let arrived = packets_arrived(stream, events);
    &&& inbox.status.packets_invalid == tally(invalid_arrived(stream, events))
    &&& inbox.status.packets_invalid == tally(inbox.status.invalid_in_any_way())
    &&& inbox.kept().len() <= arrived.len()
    &&& inbox.status.packets_dropped == tally((arrived.len() - inbox.kept().len()) as nat)
    &&& is_drawn_from(inbox.kept(), arrived)
    &&& inbox.kept().len() == arrived.len() ==> inbox.kept() == arrived
    &&& inbox.waiting.len() <= RECEIVE_QUEUE_PACKETS
    &&& inbox.status == (ReceiverStatus {
        packets_dropped: inbox.status.packets_dropped,
        packets_invalid: inbox.status.packets_invalid,
        packets_invalid_header: inbox.status.packets_invalid_header,
        packets_invalid_format: inbox.status.packets_invalid_format,
        packets_invalid_frame_mismatch: inbox.status.packets_invalid_frame_mismatch,
        last_invalid_samples: inbox.status.last_invalid_samples,
        ..ReceiverStatus::cleared()
    })
}

/// Every datagram is accounted for, whatever arrives and whenever the audio callback takes packets.
/// One from elsewhere changes nothing. One that holds no packet of the stream is counted as invalid,
/// in exactly one of three ways. One that does is kept in the order of arrival, or else counted as
/// dropped, and nothing is counted besides. What waits never grows past its bound, and where
/// nothing was dropped, everything was kept.
pub proof fn law_datagrams_are_accounted_for(stream: ActiveStream, events: Seq<InboxEvent>)
    requires
        are_events_of(stream, events),
    ensures
        accounts_for(stream, events, Inbox::fresh().after_all(events)),
        events.len() > 0 ==> (events.last() matches InboxEvent::Arrived { source, .. }
            && !stream.params.takes_from(source.ip)) ==> Inbox::fresh().after_all(events)
            == Inbox::fresh().after_all(events.drop_last()),
    decreases events.len(),
{
    let inbox = Inbox::fresh().after_all(events);
    if events.len() == 0 {
        assert(inbox.kept() =~= Seq::<(u16, Seq<u32>)>::empty());
        lemma_tally_counts(0);
    } else {
        let earlier = events.drop_last();
        let before = Inbox::fresh().after_all(earlier);
        assert forall|k: int| 0 <= k < earlier.len() implies (
        #[trigger] earlier[k] matches InboxEvent::Arrived { source, datagram, intake }
            ==> is_intake(stream, source, datagram, intake)) by {
            assert(earlier[k] == events[k]);
        }
        law_datagrams_are_accounted_for(stream, earlier);
        lemma_tally_counts(invalid_arrived(stream, earlier));
        lemma_tally_counts((packets_arrived(stream, earlier).len() - before.kept().len()) as nat);
        let event = events[events.len() - 1];
        match event {
            InboxEvent::Arrived { source, datagram, intake } => {
                assert(is_intake(stream, source, datagram, intake));
                match intake {
                    Intake::Packet(packet) => {
                        lemma_drawn_from_more(
                            before.kept(),
                            packets_arrived(stream, earlier),
                            packet_content(packet),
                        );
                        if before.waiting.len() < RECEIVE_QUEUE_PACKETS {
                            assert(inbox.kept() =~= before.kept().push(packet_content(packet)));
                        } else {
                            assert(inbox.kept() =~= before.kept());
                        }
                    },
                    Intake::Invalid(kind) => {
                        law_invalid_packets_are_counted_once(before.status, kind);
                        assert(inbox.kept() =~= before.kept());
                    },
                    Intake::Foreign => {
                        assert(inbox.kept() =~= before.kept());
                    },
                }
            },
            InboxEvent::Collected(count) => {
                assert(inbox.collected + inbox.waiting =~= before.collected + before.waiting);
            },
        }
    }
}

/// Whether packets are what a worker takes from the packets that a sender hands on, the first of
/// them `first` packets behind the one that it began with.
pub open spec fn taken_from_sender(
    packets: Seq<ReceiverPacket>,
    sender: crate::sender::Outgoing,
    buffers: Seq<Option<Seq<u32>>>,
    stream: ActiveStream,
    first: nat,
) -> bool {
    forall|k: int|
        0 <= k < packets.len() ==> {
            let datagram = crate::sender::nth_packet(sender, buffers, stream, first + k);
            &&& (#[trigger] packets[k]).sequence == crate::rtp::sequence_of(datagram)
            &&& packets[k].audio() == crate::rtp::samples_of(crate::rtp::payload(datagram))
        }
}

/// Whether a receiver has taken the first `count` packets of a sender, lost nothing, and has yet to
/// play their frames from `from` on.
pub open spec fn has_queued(
    sender: crate::sender::Outgoing,
    buffers: Seq<Option<Seq<u32>>>,
    stream: ActiveStream,
    from: nat,
    count: nat,
    playout: crate::playout::Playout,
) -> bool {
    &&& from <= count * stream.level.frames()
    &&& playout.queue == crate::sender::interleaved(
        buffers,
        stream.params.channels as nat,
        from,
        count * stream.level.frames(),
    ).map_values(|sample: u32| crate::sample::carried(sample))
    &&& playout.packets_received == crate::playout::counted(0, count as int)
    &&& playout.packets_lost == 0
    &&& playout.packets_out_of_order == 0
    &&& playout.last_sequence == (if count == 0 {
        None
    } else {
        Some(((sender.sequence + count - 1) % 0x1_0000) as u16)
    })
}

/// How many samples there are in the frames of some packets from `from` on.
pub open spec fn samples_behind(stream: ActiveStream, from: nat, count: nat) -> int {
    (count * stream.level.frames() - from) * stream.params.channels
}

/// A receiver that has just joined a stream has queued nothing, and starts with what it gets first.
pub proof fn law_joined_receiver_has_queued_nothing(
    sender: crate::sender::Outgoing,
    buffers: Seq<Option<Seq<u32>>>,
    stream: ActiveStream,
)
    ensures
        has_queued(sender, buffers, stream, 0, 0, crate::playout::Playout::joined(stream)),
{
    let channels = stream.params.channels as nat;
    assert(0nat * stream.level.frames() == 0) by (nonlinear_arith);
    assert(0int * channels == 0) by (nonlinear_arith);
    assert(crate::sender::interleaved(buffers, channels, 0, 0).map_values(
        |sample: u32| crate::sample::carried(sample),
    ) =~= Seq::<u32>::empty());
}

/// Frames behind frames.
proof fn lemma_interleaved_joins(
    buffers: Seq<Option<Seq<u32>>>,
    channels: nat,
    from: nat,
    middle: nat,
    to: nat,
)
    requires
        channels >= 1,
        from <= middle <= to,
    ensures
        crate::sender::interleaved(buffers, channels, from, middle) + crate::sender::interleaved(
            buffers,
            channels,
            middle,
            to,
        ) == crate::sender::interleaved(buffers, channels, from, to),
{
    let c = channels as int;
    let first = middle - from;
    let second = to - middle;
    let start = crate::sender::interleaved(buffers, channels, from, middle);
    let rest = crate::sender::interleaved(buffers, channels, middle, to);
    let all = crate::sender::interleaved(buffers, channels, from, to);
    assert((first + second) * c == first * c + second * c) by (nonlinear_arith);
    assert(0 <= first * c && 0 <= second * c) by (nonlinear_arith)
        requires
            first >= 0,
            second >= 0,
            c >= 1,
    ;
    assert forall|i: int| first * c <= i < all.len() implies #[trigger] all[i] == rest[i - first
        * c] by {
        let j = i - first * c;
        assert(i == c * first + j) by (nonlinear_arith)
            requires
                j == i - first * c,
        ;
        vstd::arithmetic::div_mod::lemma_mod_multiples_vanish(first, j, c);
        vstd::arithmetic::div_mod::lemma_hoist_over_denominator(j, first, channels);
        assert(j / c + first == (j + first * c) / c);
    }
    assert(start + rest =~= all);
}

/// One packet more is queued.
proof fn lemma_packet_is_queued(
    sender: crate::sender::Outgoing,
    buffers: Seq<Option<Seq<u32>>>,
    stream: ActiveStream,
    from: nat,
    count: nat,
    before: crate::playout::Playout,
    sequence: u16,
    audio: Seq<u32>,
    now: u64,
)
    requires
        stream.wf(),
        samples_behind(stream, from, count + 1) <= crate::stream::MAX_BUFFER_PACKETS
            * stream.packet_samples(),
        has_queued(sender, buffers, stream, from, count, before),
        sequence == (sender.sequence + count) % 0x1_0000,
        audio == crate::sender::interleaved(
            buffers,
            stream.params.channels as nat,
            count * stream.level.frames(),
            count * stream.level.frames() + stream.level.frames(),
        ).map_values(|sample: u32| crate::sample::carried(sample)),
    ensures
        ({
            let after = before.arrived(sequence, audio, now, stream.level, stream.params.channels);
            &&& has_queued(sender, buffers, stream, from, count + 1, after)
            &&& after.connected == before.connected
            &&& after.primed == before.primed
            &&& after.underruns == before.underruns
            &&& after.drift_corrections == before.drift_corrections
            &&& after.last_packet_at == Some(now)
        }),
{
    let channels = stream.params.channels as nat;
    let size = stream.level.frames();
    let done = count * size;
    let unit = size * channels;
    let carry = |sample: u32| crate::sample::carried(sample);
    if count > 0 {
        assert(crate::playout::sequence_gap(
            ((sender.sequence + count - 1) % 0x1_0000) as u16,
            sequence,
        ) == 0);
    }
    assert(before.accepts(sequence) && before.missing(sequence) == 0);
    assert((count + 1) * size == done + size) by (nonlinear_arith)
        requires
            done == count * size,
    ;
    lemma_interleaved_joins(buffers, channels, from, done, done + size);
    let front = crate::sender::interleaved(buffers, channels, from, done);
    let part = crate::sender::interleaved(buffers, channels, done, done + size);
    let whole = crate::sender::interleaved(buffers, channels, from, done + size);
    let fill = crate::playout::held(before.last_frame, channels, 0);
    assert(front.map_values(carry) + fill + part.map_values(carry) =~= whole.map_values(carry));
    assert(0 * unit == 0) by (nonlinear_arith);
    assert(unit * crate::stream::MAX_BUFFER_PACKETS == crate::stream::MAX_BUFFER_PACKETS * unit)
        by (nonlinear_arith);
    let after = before.arrived(sequence, audio, now, stream.level, stream.params.channels);
    assert(after.queue == whole.map_values(carry));
}

/// What a sender hands on, a receiver of the stream has to play. Packets that follow those that it
/// has taken put their frames behind what it has yet to play, every sample as 24 bits carry it, and
/// nothing is lost on the way, as long as its buffer can hold them.
pub proof fn law_receiver_queues_what_was_sent(
    sender: crate::sender::Outgoing,
    buffers: Seq<Option<Seq<u32>>>,
    stream: ActiveStream,
    from: nat,
    count: nat,
    state: crate::playout::Playout,
    packets: Seq<ReceiverPacket>,
    more: nat,
    now: u64,
)
    requires
        stream.wf(),
        has_queued(sender, buffers, stream, from, count, state),
        taken_from_sender(packets, sender, buffers, stream, count),
        more <= packets.len(),
        samples_behind(stream, from, count + more) <= crate::stream::MAX_BUFFER_PACKETS
            * stream.packet_samples(),
    ensures
        ({
            let after = state.arrived_all(
                packets,
                more,
                now,
                stream.level,
                stream.params.channels,
            );
            &&& has_queued(sender, buffers, stream, from, count + more, after)
            &&& after.connected == state.connected
            &&& after.primed == state.primed
            &&& after.underruns == state.underruns
            &&& after.drift_corrections == state.drift_corrections
            &&& more > 0 ==> after.last_packet_at == Some(now)
        }),
    decreases more,
{
    let channels = stream.params.channels as nat;
    let size = stream.level.frames();
    let carry = |sample: u32| crate::sample::carried(sample);
    if more > 0 {
        let k = (more - 1) as nat;
        let before = count + k;
        assert(samples_behind(stream, from, before) <= samples_behind(stream, from, before + 1))
            by (nonlinear_arith)
            requires
                samples_behind(stream, from, before) == (before * size - from) * channels,
                samples_behind(stream, from, before + 1) == ((before + 1) * size - from) * channels,
        ;
        law_receiver_queues_what_was_sent(
            sender,
            buffers,
            stream,
            from,
            count,
            state,
            packets,
            k,
            now,
        );
        let packet = packets[k as int];
        let part = crate::sender::interleaved(
            buffers,
            channels,
            before * size,
            before * size + size,
        );
        assert((before * size + size - before * size) * channels == stream.packet_samples())
            by (nonlinear_arith)
            requires
                stream.packet_samples() == size * channels,
        ;
        law_sent_packets_are_received(
            stream,
            ((sender.sequence + before) % 0x1_0000) as u16,
            ((sender.timestamp + before * size) % 0x1_0000_0000) as u32,
            sender.ssrc,
            part,
        );
        assert(packet.audio() =~= part.map_values(carry));
        lemma_packet_is_queued(
            sender,
            buffers,
            stream,
            from,
            before,
            state.arrived_all(packets, k, now, stream.level, stream.params.channels),
            packet.sequence,
            packet.audio(),
            now,
        );
    }
}

/// What a sender is given is what is heard. A receiver that has started, or has enough to, and is
/// within a packet of its target plays on from the frame that it has come to, every sample as 24
/// bits carry it, and then has the frames behind those yet to play.
pub proof fn law_receiver_plays_what_was_sent(
    sender: crate::sender::Outgoing,
    buffers: Seq<Option<Seq<u32>>>,
    stream: ActiveStream,
    from: nat,
    count: nat,
    playout: crate::playout::Playout,
    frames: nat,
)
    requires
        stream.wf(),
        has_queued(sender, buffers, stream, from, count, playout),
        playout.starts(stream.level, stream.params.channels, frames),
        crate::stream::target_samples(stream.level, stream.params.channels as nat, frames)
            - stream.packet_samples() <= playout.queue.len() <= crate::stream::target_samples(
            stream.level,
            stream.params.channels as nat,
            frames,
        ) + stream.packet_samples(),
    ensures
        ({
            let sound = playout.sound(stream.level, stream.params.channels, frames);
            let after = playout.played(stream.level, stream.params.channels, frames);
            &&& forall|frame: int, channel: int|
                0 <= frame < frames && 0 <= channel < stream.params.channels
                    ==> #[trigger] sound[frame][channel] == crate::sample::carried(
                    crate::block::sample_at(buffers, channel, from + frame),
                )
            &&& has_queued(sender, buffers, stream, from + frames, count, after)
            &&& after.connected == playout.connected
            &&& after.primed
            &&& after.last_packet_at == playout.last_packet_at
            &&& after.underruns == playout.underruns
            &&& after.drift_corrections == playout.drift_corrections
        }),
{
    let channels = stream.params.channels as int;
    let size = stream.level.frames() as int;
    let target = crate::stream::target_samples(stream.level, channels as nat, frames);
    let queue = playout.queue;
    let end = count * stream.level.frames();
    crate::stream::law_target_covers_a_callback(stream.level, channels as nat, frames);
    assert(queue.len() >= frames * channels && queue.len() >= channels) by (nonlinear_arith)
        requires
            target >= (frames + size) * channels,
            target >= 2 * (size * channels),
            queue.len() >= target - size * channels,
            size >= 1,
            channels >= 1,
    ;
    let available = queue.len() as int / channels;
    vstd::arithmetic::div_mod::lemma_fundamental_div_mod(queue.len() as int, channels);
    vstd::arithmetic::div_mod::lemma_mod_bound(queue.len() as int, channels);
    assert(available >= frames && available >= 1) by (nonlinear_arith)
        requires
            queue.len() == channels * available + queue.len() as int % channels,
            queue.len() as int % channels < channels,
            queue.len() >= frames * channels,
            queue.len() >= channels,
            channels >= 1,
    ;
    crate::stream::law_no_adjustment_near_target(
        queue.len() as int,
        target as int,
        stream.packet_samples() as int,
        available,
        frames as int,
    );
    let sound = playout.sound(stream.level, stream.params.channels, frames);
    let after = playout.played(stream.level, stream.params.channels, frames);
    assert forall|frame: int, channel: int|
        0 <= frame < frames && 0 <= channel < channels implies #[trigger] sound[frame][channel]
        == crate::sample::carried(crate::block::sample_at(buffers, channel, from + frame)) by {
        let at = frame * channels + channel;
        assert(0 <= at < queue.len()) by (nonlinear_arith)
            requires
                0 <= frame < frames,
                0 <= channel < channels,
                queue.len() >= frames * channels,
                at == frame * channels + channel,
        ;
        vstd::arithmetic::div_mod::lemma_fundamental_div_mod_converse(at, channels, frame, channel);
        assert(sound[frame][channel] == queue[at]);
    }
    assert(from + frames <= end) by (nonlinear_arith)
        requires
            queue.len() == (end - from) * channels,
            queue.len() >= frames * channels,
            channels >= 1,
    ;
    lemma_interleaved_joins(buffers, channels as nat, from, from + frames, end);
    assert((from + frames - from) * channels == frames * channels) by (nonlinear_arith);
    assert(frames * channels >= 0) by (nonlinear_arith)
        requires
            channels >= 1,
    ;
    assert(after.queue =~= crate::sender::interleaved(
        buffers,
        channels as nat,
        from + frames,
        end,
    ).map_values(|sample: u32| crate::sample::carried(sample)));
}

/// How many of the packets that wait a callback takes in.
pub open spec fn taken_by_callback(packets: Seq<ReceiverPacket>) -> nat {
    if packets.len() < crate::playout::MAX_PACKETS_PER_CALLBACK {
        packets.len()
    } else {
        crate::playout::MAX_PACKETS_PER_CALLBACK as nat
    }
}

/// Callback after callback, what a sender is given is what is heard. A callback that takes in the
/// packets that follow, and is then within a packet of its target, goes on where the one before it
/// ended, every sample as 24 bits carry it, and leaves the next to go on in the same way.
#[verifier::spinoff_prover]
pub proof fn law_callbacks_play_what_was_sent(
    sender: crate::sender::Outgoing,
    buffers: Seq<Option<Seq<u32>>>,
    stream: ActiveStream,
    from: nat,
    count: nat,
    state: crate::playout::Playout,
    packets: Seq<ReceiverPacket>,
    now: u64,
    frames: nat,
)
    requires
        stream.wf(),
        state.connected,
        has_queued(sender, buffers, stream, from, count, state),
        taken_from_sender(packets, sender, buffers, stream, count),
        !state.quiet_for(crate::playout::STREAM_IDLE_TIMEOUT, now),
        packets.len() > 0 || !state.quiet_for(crate::playout::STALL_SILENCE_TIMEOUT, now),
        ({
            let queued = samples_behind(stream, from, count + taken_by_callback(packets));
            let target = crate::stream::target_samples(
                stream.level,
                stream.params.channels as nat,
                frames,
            );
            &&& state.primed || queued >= target
            &&& target - stream.packet_samples() <= queued <= target + stream.packet_samples()
            &&& queued <= crate::stream::MAX_BUFFER_PACKETS * stream.packet_samples()
        }),
    ensures
        ({
            let heard = state.heard(
                packets,
                false,
                now,
                stream.level,
                stream.params.channels,
                frames,
            );
            let after = state.pulled(
                packets,
                false,
                now,
                stream.level,
                stream.params.channels,
                frames,
            );
            &&& forall|frame: int, channel: int|
                0 <= frame < frames && 0 <= channel < stream.params.channels
                    ==> #[trigger] heard[frame][channel] == crate::sample::carried(
                    crate::block::sample_at(buffers, channel, from + frame),
                )
            &&& has_queued(
                sender,
                buffers,
                stream,
                from + frames,
                count + taken_by_callback(packets),
                after,
            )
            &&& after.connected
            &&& after.primed
            &&& after.underruns == state.underruns
            &&& after.drift_corrections == state.drift_corrections
        }),
{
    let taken = taken_by_callback(packets);
    let ready = state.arrived_all(packets, taken, now, stream.level, stream.params.channels);
    law_receiver_queues_what_was_sent(
        sender,
        buffers,
        stream,
        from,
        count,
        state,
        packets,
        taken,
        now,
    );
    assert(ready.queue.len() == samples_behind(stream, from, count + taken));
    assert(state.idled(now).taken_in(packets, false, now, stream.level, stream.params.channels)
        == ready);
    assert(!ready.quiet_for(crate::playout::STALL_SILENCE_TIMEOUT, now));
    law_receiver_plays_what_was_sent(
        sender,
        buffers,
        stream,
        from,
        count + taken,
        ready,
        frames,
    );
}

/// A receiver that was reset starts with nothing, whatever it had.
pub proof fn law_reset_receiver_starts_afresh(receiver: NetworkReceiver)
    requires
        receiver.resetting(),
    ensures
        receiver.start() == crate::playout::Playout::fresh(),
{
}

/// A receiver plays where it is switched on, has a port, and has 1 to 96 channels at 44.1, 48 or 96
/// kHz, and by multicast where its address is a group from 224.0.0.0 to 239.255.255.255 as well. It
/// plays the stream that is set.
pub proof fn law_receivers_receive_what_is_set(params: StreamParameters, sample_rate_hz: u32)
    ensures
        received_stream(params, sample_rate_hz) is Some <==> {
            &&& params.enabled
            &&& params.port > 0
            &&& 1 <= params.channels <= 96
            &&& sample_rate_hz == 44_100 || sample_rate_hz == 48_000 || sample_rate_hz == 96_000
            &&& params.transport == crate::stream::StreamTransport::Multicast ==> 224
                <= params.ip@[0] <= 239
        },
        received_stream(params, sample_rate_hz) matches Some(stream) ==> stream.params == params
            && stream.level.rate() == sample_rate_hz && stream.wf(),
{
}

/// A callback of a stream that is not being played yet asks for a worker for it and gives up what
/// arrived of another. A callback of the stream that is being played leaves the worker alone, and so
/// does one without a stream, which keeps what arrived.
pub proof fn law_receivers_join_a_stream_once(
    start: crate::playout::Playout,
    params: StreamParameters,
    sample_rate_hz: u32,
    packets: Seq<ReceiverPacket>,
    frames: nat,
    gone: bool,
    now: u64,
)
    ensures
        match received_stream(params, sample_rate_hz) {
            None => {
                &&& pulled_order(start, params, sample_rate_hz) == WorkerOrder::Keep
                &&& pulled_packets(start, params, sample_rate_hz, packets) == packets
                &&& pulled_playout(start, params, sample_rate_hz, frames, packets, gone, now) == start
            },
            Some(stream) => if start.connected && start.stream == Some(stream) {
                &&& pulled_order(start, params, sample_rate_hz) == WorkerOrder::Keep
                &&& pulled_playout(start, params, sample_rate_hz, frames, packets, gone, now)
                    == start.pulled(packets, gone, now, stream.level, params.channels, frames)
                &&& packets.len() <= 64 ==> pulled_packets(
                    start,
                    params,
                    sample_rate_hz,
                    packets,
                ).len() == 0
                &&& packets.len() > 64 ==> pulled_packets(start, params, sample_rate_hz, packets)
                    == packets.skip(64)
            } else {
                let after = pulled_playout(
                    start,
                    params,
                    sample_rate_hz,
                    frames,
                    packets,
                    gone,
                    now,
                );
                &&& pulled_order(start, params, sample_rate_hz) == WorkerOrder::Start(stream)
                &&& pulled_packets(start, params, sample_rate_hz, packets).len() == 0
                &&& after.stream == Some(stream)
                &&& after.connected
                &&& after.queue.len() == 0
                &&& after.packets_received == 0
                &&& after.last_sequence is None
            },
        },
{
    if let Some(stream) = received_stream(params, sample_rate_hz) {
        if !start.plays_stream(stream) {
            crate::playout::lemma_joined_is_silent(
                crate::playout::Playout::joined(stream),
                stream,
                now,
                frames,
            );
        }
    }
}

/// A packet of the stream that a sender put on the wire is taken, with its number and its samples as 24
/// bits carry them, from every source that the stream takes packets from, and from no other.
pub proof fn law_workers_take_the_packets_of_the_stream(
    stream: ActiveStream,
    source: Endpoint,
    sequence: u16,
    timestamp: u32,
    ssrc: u32,
    samples: Seq<u32>,
    intake: Intake,
)
    requires
        stream.wf(),
        samples.len() == stream.level.frames() * stream.params.channels,
        is_intake(
            stream,
            source,
            crate::rtp::rtp_packet(sequence, timestamp, ssrc, crate::rtp::payload_of(samples)),
            intake,
        ),
    ensures
        stream.params.takes_from(source.ip) ==> {
            &&& intake is Packet
            &&& intake->Packet_0.sequence == sequence
            &&& intake->Packet_0.audio().len() == samples.len()
            &&& forall|i: int|
                0 <= i < samples.len() ==> #[trigger] intake->Packet_0.audio()[i]
                    == crate::sample::carried(samples[i])
        },
        !stream.params.takes_from(source.ip) ==> intake is Foreign,
{
    law_sent_packets_are_received(stream, sequence, timestamp, ssrc, samples);
}

/// A datagram of the stream's source is taken exactly where its payload has three bytes for each sample
/// of a packet of the stream, and is else counted as invalid.
pub proof fn law_workers_refuse_other_packets(
    stream: ActiveStream,
    source: Endpoint,
    packet: Seq<u8>,
    intake: Intake,
)
    requires
        stream.wf(),
        stream.params.takes_from(source.ip),
        is_intake(stream, source, packet, intake),
    ensures
        intake is Packet <==> crate::rtp::carries_l24(packet) && crate::rtp::payload(packet).len()
            == 3 * (stream.level.frames() * stream.params.channels),
        intake is Packet || intake is Invalid,
{
    let size = stream.level.frames() as int;
    let channels = stream.params.channels as int;
    assert(size * channels <= 9_216) by (nonlinear_arith)
        requires
            size <= 96,
            0 <= channels <= 96,
    ;
}

/// What is done with a datagram: a packet waits behind the others, where fewer than 512 do, and is else
/// counted as dropped. One that is invalid is counted, and one from elsewhere is not.
pub proof fn law_packets_wait_for_the_callback(
    waiting: Seq<ReceiverPacket>,
    status: ReceiverStatus,
    packet: ReceiverPacket,
    kind: InvalidPacketKind,
)
    ensures
        waiting.len() < 512 ==> taken_in(waiting, status, Intake::Packet(packet)) == (
            waiting.push(packet),
            status,
        ),
        waiting.len() >= 512 && status.packets_dropped < u64::MAX ==> taken_in(
            waiting,
            status,
            Intake::Packet(packet),
        ) == (
            waiting,
            ReceiverStatus { packets_dropped: (status.packets_dropped + 1) as u64, ..status },
        ),
        taken_in(waiting, status, Intake::Foreign) == (waiting, status),
        taken_in(waiting, status, Intake::Invalid(kind)).0 == waiting,
        taken_in(waiting, status, Intake::Invalid(kind)).1 == status.with_invalid(kind),
{
}

/// Each kind of invalid packet has its own count, and counts among all of them. Of one with the wrong
/// number of frames it is noted how many samples it had.
pub proof fn law_kinds_of_invalid_packets_have_their_counts(status: ReceiverStatus, samples: usize)
    requires
        status.packets_invalid < u64::MAX,
        status.packets_invalid_header < u64::MAX,
        status.packets_invalid_format < u64::MAX,
        status.packets_invalid_frame_mismatch < u64::MAX,
    ensures
        status.with_invalid(InvalidPacketKind::Header) == (ReceiverStatus {
            packets_invalid: (status.packets_invalid + 1) as u64,
            packets_invalid_header: (status.packets_invalid_header + 1) as u64,
            ..status
        }),
        status.with_invalid(InvalidPacketKind::Format) == (ReceiverStatus {
            packets_invalid: (status.packets_invalid + 1) as u64,
            packets_invalid_format: (status.packets_invalid_format + 1) as u64,
            ..status
        }),
        status.with_invalid(InvalidPacketKind::FrameMismatch { actual_samples: samples }) == (
        ReceiverStatus {
            packets_invalid: (status.packets_invalid + 1) as u64,
            packets_invalid_frame_mismatch: (status.packets_invalid_frame_mismatch + 1) as u64,
            last_invalid_samples: samples,
            ..status
        }),
{
}

/// A callback reports the figures of its own side, each under its own name, and leaves those of the
/// worker.
pub proof fn law_callbacks_report_their_figures(
    status: ReceiverStatus,
    playout: crate::playout::Playout,
)
    requires
        playout.queue.len() <= usize::MAX,
    ensures
        ({
            let after = status.published(playout);
            &&& after.primed == playout.primed
            &&& after.queued_samples == playout.queue.len()
            &&& after.target_buffer_samples == playout.target_buffer_samples
            &&& after.last_callback_frames == playout.last_callback_frames
            &&& after.packets_received == playout.packets_received
            &&& after.packets_lost == playout.packets_lost
            &&& after.packets_out_of_order == playout.packets_out_of_order
            &&& after.underruns == playout.underruns
            &&& after.drift_corrections == playout.drift_corrections
            &&& after.active == status.active
            &&& after.packets_dropped == status.packets_dropped
            &&& after.packets_invalid == status.packets_invalid
            &&& after.packets_invalid_header == status.packets_invalid_header
            &&& after.packets_invalid_format == status.packets_invalid_format
            &&& after.packets_invalid_frame_mismatch == status.packets_invalid_frame_mismatch
            &&& after.last_invalid_samples == status.last_invalid_samples
        }),
{
}

/// The counters of a receiver's worker count up by one, and from their end to zero.
pub proof fn law_counters_start_over(counter: u64)
    ensures
        wrapped(counter) == (counter + 1) % 0x1_0000_0000_0000_0000,
{
}

} // verus!
