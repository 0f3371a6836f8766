//! The receiver's audio side: ordering what arrives, hiding what is missing, and playing it out
//! at the pace of the host.

use crate::block::AudioBlock;
use crate::ring::SampleRing;
use crate::rtp::ReceiverPacket;
use crate::stream::{
    playout_adjustment_frames, target_buffer_samples, ActiveStream, StreamLevel, StreamParameters,
    MAX_BUFFER_PACKETS, MAX_BUFFER_SAMPLES, MAX_CHANNELS, MAX_PACKET_SAMPLES,
};
use std::collections::VecDeque;
use vstd::prelude::*;

verus! {

/// How many packets one callback takes in at most.
pub const MAX_PACKETS_PER_CALLBACK: usize = 64;

/// How many missing packets are made up at most.
pub const MAX_CONCEALMENT_PACKETS_PER_GAP: usize = 8;

/// After how long without packets the receiver falls silent, in nanoseconds.
pub const STALL_SILENCE_TIMEOUT: u64 = 20_000_000;

/// After how long without packets the receiver forgets the stream's state, in nanoseconds.
pub const STREAM_IDLE_TIMEOUT: u64 = 250_000_000;

/// A counter that stays at its end.
pub open spec fn counted(counter: u64, more: int) -> u64 {
    if counter + more > u64::MAX {
        u64::MAX
    } else {
        (counter + more) as u64
    }
}

/// How far a sequence number is ahead of the one that follows `previous`, on a circle.
pub open spec fn sequence_gap(previous: u16, sequence: u16) -> int {
    (sequence - previous - 1) % 0x1_0000
}

/// The frame that was heard last, again and again.
pub open spec fn held(last_frame: Seq<u32>, channels: nat, count: nat) -> Seq<u32> {
    Seq::new(count, |i: int| last_frame[i % channels as int])
}

/// The time since an instant, none where it lies ahead.
pub open spec fn elapsed(since: u64, now: u64) -> int {
    if now < since {
        0
    } else {
        now - since
    }
}

/// A silent frame.
pub open spec fn silent_frame() -> Seq<u32> {
    Seq::new(MAX_CHANNELS as nat, |i: int| crate::sample::SILENCE)
}

/// What the receiver's audio side knows.
#[verifier::ext_equal]
pub struct Playout {
    pub stream: Option<ActiveStream>,
    pub connected: bool,
    pub queue: Seq<u32>,
    pub last_frame: Seq<u32>,
    pub primed: bool,
    pub target_buffer_samples: usize,
    pub last_callback_frames: usize,
    pub last_sequence: Option<u16>,
    pub last_packet_at: Option<u64>,
    pub packets_received: u64,
    pub packets_lost: u64,
    pub packets_out_of_order: u64,
    pub underruns: u64,
    pub drift_corrections: u64,
}

impl Playout {
    /// Nothing.
    pub open spec fn fresh() -> Playout {
        Playout {
            stream: None,
            connected: false,
            queue: Seq::empty(),
            last_frame: silent_frame(),
            primed: false,
            target_buffer_samples: 0,
            last_callback_frames: 0,
            last_sequence: None,
            last_packet_at: None,
            packets_received: 0,
            packets_lost: 0,
            packets_out_of_order: 0,
            underruns: 0,
            drift_corrections: 0,
        }
    }

    /// A stream was joined, and nothing of it has arrived.
    pub open spec fn joined(stream: ActiveStream) -> Playout {
        Playout { stream: Some(stream), connected: true, ..Playout::fresh() }
    }

    /// Whether a stream is being played.
    pub open spec fn plays_stream(self, stream: ActiveStream) -> bool {
        self.stream == Some(stream) && self.connected
    }

    /// Whether a packet comes in order: it is the first, or lies in the half of the circle ahead.
    pub open spec fn accepts(self, sequence: u16) -> bool {
        match self.last_sequence {
            None => true,
            Some(previous) => sequence_gap(previous, sequence) < 0x8000,
        }
    }

    /// How many packets are missing before one that comes in order.
    pub open spec fn missing(self, sequence: u16) -> int {
        match self.last_sequence {
            None => 0,
            Some(previous) => sequence_gap(previous, sequence),
        }
    }

    /// How many of them are made up.
    pub open spec fn concealed(self, sequence: u16) -> int {
        if self.missing(sequence) < MAX_CONCEALMENT_PACKETS_PER_GAP {
            self.missing(sequence)
        } else {
            MAX_CONCEALMENT_PACKETS_PER_GAP as int
        }
    }

    /// After a packet's sequence number was taken note of.
    pub open spec fn noted(self, sequence: u16) -> Playout {
        if self.accepts(sequence) {
            Playout {
                last_sequence: Some(sequence),
                packets_lost: counted(self.packets_lost, self.missing(sequence)),
                ..self
            }
        } else {
            Playout { packets_out_of_order: counted(self.packets_out_of_order, 1), ..self }
        }
    }

    /// After a packet arrived. Out of order it is only counted. In order, the last frame is held
    /// for what is missing before it, its samples follow, and the oldest samples beyond
    /// `MAX_BUFFER_PACKETS` packets' worth are given up.
    pub open spec fn arrived(
        self,
        sequence: u16,
        audio: Seq<u32>,
        now: u64,
        level: StreamLevel,
        channels: u8,
    ) -> Playout {
        if self.accepts(sequence) {
            let packet_samples = level.frames() * channels as nat;
            Playout {
                last_packet_at: Some(now),
                packets_received: counted(self.packets_received, 1),
                queue: crate::ring::newest(
                    self.queue + held(
                        self.last_frame,
                        channels as nat,
                        (self.concealed(sequence) * packet_samples) as nat,
                    ) + audio,
                    packet_samples * MAX_BUFFER_PACKETS as nat,
                ),
                ..self.noted(sequence)
            }
        } else {
            self.noted(sequence)
        }
    }

    /// After the first `count` of some packets arrived.
    pub open spec fn arrived_all(
        self,
        packets: Seq<ReceiverPacket>,
        count: nat,
        now: u64,
        level: StreamLevel,
        channels: u8,
    ) -> Playout
        decreases count,
    {
        if count == 0 {
            self
        } else {
            let packet = packets[count - 1];
            self.arrived_all(packets, (count - 1) as nat, now, level, channels).arrived(
                packet.sequence,
                packet.audio(),
                now,
                level,
                channels,
            )
        }
    }

    /// After a callback took in what the worker had for it. At most `MAX_PACKETS_PER_CALLBACK`
    /// packets are taken in. Where the worker is seen to have gone, everything is forgotten.
    pub open spec fn taken_in(
        self,
        packets: Seq<ReceiverPacket>,
        gone: bool,
        now: u64,
        level: StreamLevel,
        channels: u8,
    ) -> Playout {
        if !self.connected {
            self
        } else if packets.len() >= MAX_PACKETS_PER_CALLBACK {
            self.arrived_all(packets, MAX_PACKETS_PER_CALLBACK as nat, now, level, channels)
        } else if gone {
            Playout::fresh()
        } else {
            self.arrived_all(packets, packets.len(), now, level, channels)
        }
    }

    /// Whether nothing has arrived for the given time.
    pub open spec fn quiet_for(self, nanos: u64, now: u64) -> bool {
        self.last_packet_at matches Some(at) && elapsed(at, now) >= nanos
    }

    /// With nothing to play.
    pub open spec fn flushed(self) -> Playout {
        Playout { queue: Seq::empty(), last_frame: silent_frame(), primed: false, ..self }
    }

    /// After the stream was seen to be idle, where it is.
    pub open spec fn idled(self, now: u64) -> Playout {
        if self.quiet_for(STREAM_IDLE_TIMEOUT, now) {
            Playout { last_sequence: None, last_packet_at: None, ..self.flushed() }
        } else {
            self
        }
    }

    /// Whole frames that are queued.
    pub open spec fn available(self, channels: u8) -> nat {
        self.queue.len() / channels as nat
    }

    /// By how many frames a callback takes more than it plays, where it can.
    pub open spec fn adjustment(self, level: StreamLevel, channels: u8, frames: nat) -> int {
        crate::stream::playout_adjustment(
            self.queue.len() as int,
            crate::stream::target_samples(level, channels as nat, frames) as int,
            (level.frames() * channels as nat) as int,
            self.available(channels) as int,
            frames as int,
        )
    }

    /// By how many frames it does. One frame cannot be played twice in a callback of one.
    pub open spec fn shift(self, level: StreamLevel, channels: u8, frames: nat) -> int {
        let adjustment = self.adjustment(level, channels, frames);
        if frames == 0 || (frames == 1 && adjustment < 0) {
            0
        } else {
            adjustment
        }
    }

    /// Whether a callback plays what is queued: the receiver is primed or gets primed, and a
    /// frame is there.
    pub open spec fn starts(self, level: StreamLevel, channels: u8, frames: nat) -> bool {
        self.primed || self.queue.len() >= crate::stream::target_samples(
            level,
            channels as nat,
            frames,
        )
    }

    pub open spec fn plays(self, level: StreamLevel, channels: u8, frames: nat) -> bool {
        self.starts(level, channels, frames) && self.available(channels) > 0
    }

    /// Whether there are frames enough for the whole callback.
    pub open spec fn suffices(self, level: StreamLevel, channels: u8, frames: nat) -> bool {
        self.available(channels) >= frames + self.shift(level, channels, frames)
    }

    /// Which queued frame is heard at a frame of the callback: up to the middle its own, from
    /// there on the one before or behind where one is played twice or skipped.
    pub open spec fn source(self, level: StreamLevel, channels: u8, frames: nat, frame: int) -> int {
        if frame < frames as int / 2 {
            frame
        } else {
            frame + self.shift(level, channels, frames)
        }
    }

    /// What a callback plays.
    pub open spec fn sound(
        self,
        level: StreamLevel,
        channels: u8,
        frames: nat,
    ) -> crate::block::Sound {
        Seq::new(
            frames,
            |f: int|
                Seq::new(
                    channels as nat,
                    |c: int|
                        if !self.plays(level, channels, frames) {
                            crate::sample::SILENCE
                        } else if self.suffices(level, channels, frames) || f < self.available(
                            channels,
                        ) {
                            self.queue[self.source(level, channels, frames, f) * channels + c]
                        } else {
                            crate::sample::SILENCE
                        },
                ),
        )
    }

    /// The last frame of a callback, which stays as it was for the channels that it has not
    /// reached.
    pub open spec fn last_heard(self, level: StreamLevel, channels: u8, frames: nat) -> Seq<u32> {
        let available = self.available(channels) as int;
        let rest = self.queue.len() as int % channels as int;
        Seq::new(
            self.last_frame.len(),
            |c: int|
                if c >= channels || frames == 0 {
                    self.last_frame[c]
                } else if self.suffices(level, channels, frames) {
                    self.queue[self.source(level, channels, frames, frames - 1) * channels + c]
                } else if c < rest {
                    self.queue[available * channels + c]
                } else {
                    self.queue[(available - 1) * channels + c]
                },
        )
    }

    /// The frame that was heard last, `frames` frames into a callback.
    spec fn heard_until(self, level: StreamLevel, channels: u8, total: nat, frames: int) -> Seq<
        u32,
    > {
        Seq::new(
            self.last_frame.len(),
            |c: int|
                if c >= channels || frames == 0 {
                    self.last_frame[c]
                } else {
                    self.queue[self.source(level, channels, total, frames - 1) * channels + c]
                },
        )
    }

    /// After a callback that played.
    pub open spec fn played(self, level: StreamLevel, channels: u8, frames: nat) -> Playout {
        let target = crate::stream::target_samples(level, channels as nat, frames);
        let framed = Playout {
            last_callback_frames: frames as usize,
            target_buffer_samples: target as usize,
            ..self
        };
        if !self.starts(level, channels, frames) {
            framed
        } else if self.available(channels) == 0 {
            Playout { primed: true, underruns: counted(self.underruns, 1), ..framed }
        } else {
            Playout {
                primed: true,
                drift_corrections: if self.adjustment(level, channels, frames) != 0 {
                    counted(self.drift_corrections, 1)
                } else {
                    self.drift_corrections
                },
                underruns: if self.suffices(level, channels, frames) {
                    self.underruns
                } else {
                    counted(self.underruns, 1)
                },
                queue: if self.suffices(level, channels, frames) {
                    self.queue.skip((frames + self.shift(level, channels, frames)) * channels)
                } else {
                    Seq::empty()
                },
                last_frame: self.last_heard(level, channels, frames),
                ..framed
            }
        }
    }

    /// After a callback.
    pub open spec fn pulled(
        self,
        packets: Seq<ReceiverPacket>,
        gone: bool,
        now: u64,
        level: StreamLevel,
        channels: u8,
        frames: nat,
    ) -> Playout {
        let ready = self.idled(now).taken_in(packets, gone, now, level, channels);
        if ready.quiet_for(STALL_SILENCE_TIMEOUT, now) {
            ready.flushed()
        } else {
            ready.played(level, channels, frames)
        }
    }

    /// What a callback is heard to play.
    pub open spec fn heard(
        self,
        packets: Seq<ReceiverPacket>,
        gone: bool,
        now: u64,
        level: StreamLevel,
        channels: u8,
        frames: nat,
    ) -> crate::block::Sound {
        let ready = self.idled(now).taken_in(packets, gone, now, level, channels);
        if ready.quiet_for(STALL_SILENCE_TIMEOUT, now) {
            crate::block::silence(frames, channels as nat)
        } else {
            ready.sound(level, channels, frames)
        }
    }
}

/// A callback that has just joined a stream plays silence.
pub proof fn lemma_joined_is_silent(state: Playout, stream: ActiveStream, now: u64, frames: nat)
    requires
        state == Playout::joined(stream),
        stream.wf(),
    ensures
        ({
            let channels = stream.params.channels;
            let nothing = Seq::<ReceiverPacket>::empty();
            &&& state.heard(nothing, false, now, stream.level, channels, frames)
                == crate::block::silence(frames, channels as nat)
            &&& state.pulled(nothing, false, now, stream.level, channels, frames) == state.played(
                stream.level,
                channels,
                frames,
            )
        }),
{
    let channels = stream.params.channels;
    let level = stream.level;
    let nothing = Seq::<ReceiverPacket>::empty();
    assert(state.arrived_all(nothing, 0, now, level, channels) == state);
    crate::stream::law_target_covers_a_callback(level, channels as nat, frames);
    lemma_level_frames(level);
    assert(2 * (level.frames() * channels as nat) > 0) by (nonlinear_arith)
        requires
            level.frames() >= 1,
            channels >= 1,
    ;
    law_silent_until_primed(state, level, channels, frames);
}

/// The receiver's audio side.
pub struct ReceiverAudioState {
    pub stream: Option<ActiveStream>,
    pub connected: bool,
    pub ring: SampleRing,
    pub last_frame: [u32; MAX_CHANNELS],
    pub primed: bool,
    pub target_buffer_samples: usize,
    pub last_callback_frames: usize,
    pub last_sequence: Option<u16>,
    pub last_packet_at: Option<u64>,
    pub packets_received: u64,
    pub packets_lost: u64,
    pub packets_out_of_order: u64,
    pub underruns: u64,
    pub drift_corrections: u64,
}

impl View for ReceiverAudioState {
    type V = Playout;

    open spec fn view(&self) -> Playout {
        Playout {
            stream: self.stream,
            connected: self.connected,
            queue: self.ring@,
            last_frame: self.last_frame@,
            primed: self.primed,
            target_buffer_samples: self.target_buffer_samples,
            last_callback_frames: self.last_callback_frames,
            last_sequence: self.last_sequence,
            last_packet_at: self.last_packet_at,
            packets_received: self.packets_received,
            packets_lost: self.packets_lost,
            packets_out_of_order: self.packets_out_of_order,
            underruns: self.underruns,
            drift_corrections: self.drift_corrections,
        }
    }
}

/// A packet's samples fit a packet, and the packets that are kept fit the buffer.
proof fn lemma_packet_samples(level: StreamLevel, channels: u8)
    requires
        channels <= MAX_CHANNELS,
    ensures
        level.frames() * channels as nat <= MAX_PACKET_SAMPLES,
        level.frames() * channels as nat * MAX_BUFFER_PACKETS as nat <= MAX_BUFFER_SAMPLES,
        level.frames() >= 1,
{
    match level {
        StreamLevel::A48k => {},
        StreamLevel::Legacy44k1 => {},
        StreamLevel::AX96k => {},
    }
}

/// A packet has frames.
proof fn lemma_level_frames(level: StreamLevel)
    ensures
        level.frames() >= 1,
{
}

/// What a callback leaves to the next.
pub open spec fn left_over(packets: Seq<ReceiverPacket>) -> Seq<ReceiverPacket> {
    packets.skip(
        if packets.len() < MAX_PACKETS_PER_CALLBACK {
            packets.len() as int
        } else {
            MAX_PACKETS_PER_CALLBACK as int
        },
    )
}

/// As many as there are channels, or as there are samples where there are fewer.
spec fn shorter(channels: int, samples: Seq<u32>) -> int {
    if samples.len() < channels {
        samples.len() as int
    } else {
        channels
    }
}

/// A frame whose first channels have new samples.
spec fn overlaid(frame: Seq<u32>, samples: Seq<u32>, count: int) -> Seq<u32> {
    Seq::new(
        frame.len(),
        |c: int|
            if c < count {
                samples[c]
            } else {
                frame[c]
            },
    )
}

/// How many frames are taken for the first `frames` of a callback, where one at the middle is
/// played twice or skipped.
spec fn taken_before(middle: int, shift: int, frames: int) -> int {
    if frames <= middle {
        frames
    } else {
        frames + shift
    }
}

/// A number of frames fits a queue exactly where it is no more than the whole frames in it.
proof fn lemma_frame_fits(len: int, channels: int, frames: int)
    requires
        len >= 0,
        channels >= 1,
    ensures
        frames <= len / channels <==> frames * channels <= len,
        len - (len / channels) * channels == len % channels,
        0 <= len % channels < channels,
{
    vstd::arithmetic::div_mod::lemma_fundamental_div_mod(len, channels);
    vstd::arithmetic::div_mod::lemma_mod_bound(len, channels);
    let whole = len / channels;
    assert(channels * whole == whole * channels) by (nonlinear_arith);
    if frames <= whole {
        assert(frames * channels <= whole * channels) by (nonlinear_arith)
            requires
                frames <= whole,
                channels >= 1,
        ;
    } else {
        assert(frames * channels >= whole * channels + channels) by (nonlinear_arith)
            requires
                frames >= whole + 1,
                channels >= 1,
        ;
    }
}

/// Whether every packet counts no more samples than it holds.
pub open spec fn packets_wf(packets: Seq<ReceiverPacket>) -> bool {
    forall|i: int| 0 <= i < packets.len() ==> (#[trigger] packets[i]).wf()
}

impl ReceiverAudioState {
    pub open spec fn wf(&self) -> bool {
        self.ring.wf()
    }

    /// Nothing has arrived.
    pub fn new() -> (state: Self)
        ensures
            state.wf(),
            state@ == Playout::fresh(),
    {
        let state = ReceiverAudioState {
            stream: None,
            connected: false,
            ring: SampleRing::new(),
            last_frame: [0u32; MAX_CHANNELS],
            primed: false,
            target_buffer_samples: 0,
            last_callback_frames: 0,
            last_sequence: None,
            last_packet_at: None,
            packets_received: 0,
            packets_lost: 0,
            packets_out_of_order: 0,
            underruns: 0,
            drift_corrections: 0,
        };
        proof {
            assert(state@ =~= Playout::fresh());
        }
        state
    }

    /// Forgets everything.
    pub fn reset_local(&mut self)
        requires
            old(self).wf(),
        ensures
            final(self).wf(),
            final(self)@ == Playout::fresh(),
    {
        self.stream = None;
        self.connected = false;
        self.ring.clear();
        self.last_frame = [0u32; MAX_CHANNELS];
        self.primed = false;
        self.target_buffer_samples = 0;
        self.last_callback_frames = 0;
        self.last_sequence = None;
        self.last_packet_at = None;
        self.packets_received = 0;
        self.packets_lost = 0;
        self.packets_out_of_order = 0;
        self.underruns = 0;
        self.drift_corrections = 0;
        proof {
            assert(self@ =~= Playout::fresh());
        }
    }

    /// How many samples are queued.
    pub fn queued_samples(&self) -> (count: usize)
        requires
            self.wf(),
        ensures
            count == self@.queue.len(),
    {
        self.ring.queued()
    }

    /// Takes note of a sequence number. Tells how many packets to make up before it, or that the
    /// packet is out of order.
    pub fn accept_sequence(&mut self, sequence: Option<u16>) -> (concealed: Option<usize>)
        requires
            old(self).wf(),
        ensures
            final(self).wf(),
            match sequence {
                None => concealed is None && final(self)@ == old(self)@,
                Some(number) => {
                    &&& final(self)@ == old(self)@.noted(number)
                    &&& concealed == (if old(self)@.accepts(number) {
                        Some(old(self)@.concealed(number) as usize)
                    } else {
                        None
                    })
                },
            },
    {
        let sequence: u16 = match sequence {
            None => {
                return None;
            },
            Some(sequence) => sequence,
        };
        let mut missing_packets: usize = 0;
        if let Some(previous) = self.last_sequence {
            let expected: u16 = previous.wrapping_add(1);
            if sequence != expected {
                let forward_distance: u16 = sequence.wrapping_sub(expected);
                assert(forward_distance == sequence_gap(previous, sequence));
                if forward_distance < 0x8000 {
                    self.packets_lost = self.packets_lost.saturating_add(forward_distance as u64);
                    missing_packets = forward_distance as usize;
                } else {
                    self.packets_out_of_order = self.packets_out_of_order.saturating_add(1);
                    proof {
                        assert(self@ =~= old(self)@.noted(sequence));
                    }
                    return None;
                }
            } else {
                assert(sequence_gap(previous, sequence) == 0);
            }
        }
        self.last_sequence = Some(sequence);
        proof {
            assert(self@ =~= old(self)@.noted(sequence));
        }
        if missing_packets < MAX_CONCEALMENT_PACKETS_PER_GAP {
            Some(missing_packets)
        } else {
            Some(MAX_CONCEALMENT_PACKETS_PER_GAP)
        }
    }

    /// Queues a packet's samples. Where they do not fit, the oldest give way.
    pub fn enqueue_packet(&mut self, packet: ReceiverPacket)
        requires
            old(self).wf(),
            packet.wf(),
        ensures
            final(self).wf(),
            final(self)@ == (Playout {
                queue: crate::ring::newest(
                    old(self)@.queue + packet.audio(),
                    MAX_BUFFER_SAMPLES as nat,
                ),
                ..old(self)@
            }),
    {
        self.ring.push_block(packet.samples.as_slice(), packet.sample_count);
        proof {
            assert(self@ =~= (Playout {
                queue: crate::ring::newest(
                    old(self)@.queue + packet.audio(),
                    MAX_BUFFER_SAMPLES as nat,
                ),
                ..old(self)@
            }));
        }
    }

    /// Queues the frame that was heard last for as long as the missing packets would have lasted.
    pub fn enqueue_concealment_packets(
        &mut self,
        missing_packets: usize,
        level: StreamLevel,
        channels: u8,
    )
        requires
            old(self).wf(),
            1 <= channels <= MAX_CHANNELS,
        ensures
            final(self).wf(),
            final(self)@ == (Playout {
                queue: crate::ring::newest(
                    old(self)@.queue + held(
                        old(self)@.last_frame,
                        channels as nat,
                        missing_packets as nat * (level.frames() * channels as nat),
                    ),
                    MAX_BUFFER_SAMPLES as nat,
                ),
                ..old(self)@
            }),
    {
        let frames: usize = level.packet_frames();
        let width: usize = channels as usize;
        proof {
            lemma_packet_samples(level, channels);
        }
        let packet_samples: usize = frames * width;
        let ghost unit = level.frames() * channels as nat;
        let ghost before = self@;
        let mut sent: usize = 0;
        proof {
            self.ring.lemma_len();
            assert(0nat * unit == 0) by (nonlinear_arith);
            assert(before.queue + held(before.last_frame, channels as nat, 0) =~= before.queue);
            assert(self@ =~= (Playout {
                queue: crate::ring::newest(
                    before.queue + held(before.last_frame, channels as nat, 0nat * unit),
                    MAX_BUFFER_SAMPLES as nat,
                ),
                ..before
            }));
        }
        while sent < missing_packets
            invariant
                sent <= missing_packets,
                self.wf(),
                1 <= channels <= MAX_CHANNELS,
                width == channels,
                frames == level.frames(),
                frames >= 1,
                unit == level.frames() * channels as nat,
                packet_samples == unit,
                packet_samples <= MAX_PACKET_SAMPLES,
                before.last_frame.len() == MAX_CHANNELS,
                self@ == (Playout {
                    queue: crate::ring::newest(
                        before.queue + held(
                            before.last_frame,
                            channels as nat,
                            sent as nat * unit,
                        ),
                        MAX_BUFFER_SAMPLES as nat,
                    ),
                    ..before
                }),
            decreases missing_packets - sent,
        {
            let ghost entry = self@;
            let packet = self.held_packet(frames, width);
            self.enqueue_packet(packet);
            proof {
                let so_far = held(before.last_frame, channels as nat, sent as nat * unit);
                let more = held(before.last_frame, channels as nat, unit);
                let next = held(before.last_frame, channels as nat, (sent + 1) as nat * unit);
                assert(packet.audio() =~= more);
                assert((sent + 1) as nat * unit == sent as nat * unit + unit) by (nonlinear_arith);
                let done = sent as nat * unit;
                assert forall|j: int| done <= j < done + unit implies #[trigger] next[j] == more[j
                    - done] by {
                    let i = j - done;
                    assert(j == channels * (sent * level.frames()) + i) by (nonlinear_arith)
                        requires
                            unit == level.frames() * channels as nat,
                            done == sent as nat * unit,
                            i == j - done,
                    ;
                    vstd::arithmetic::div_mod::lemma_mod_multiples_vanish(
                        (sent * level.frames()) as int,
                        i,
                        channels as int,
                    );
                }
                assert((so_far + more).len() == next.len());
                assert(so_far + more =~= next);
                crate::ring::law_newest_composes(
                    before.queue + so_far,
                    more,
                    MAX_BUFFER_SAMPLES as nat,
                    MAX_BUFFER_SAMPLES as nat,
                );
                assert(before.queue + so_far + more =~= before.queue + next);
            }
            sent = sent + 1;
        }
    }

    /// A packet of the frame that was heard last.
    fn held_packet(&self, frames: usize, channels: usize) -> (packet: ReceiverPacket)
        requires
            1 <= channels <= MAX_CHANNELS,
            frames * channels <= MAX_PACKET_SAMPLES,
        ensures
            packet.wf(),
            packet.audio() == held(
                self.last_frame@,
                channels as nat,
                (frames * channels) as nat,
            ),
    {
        let count: usize = frames * channels;
        let mut packet = ReceiverPacket {
            sequence: 0,
            sample_count: count,
            samples: [0u32; MAX_PACKET_SAMPLES],
        };
        let mut index: usize = 0;
        while index < count
            invariant
                index <= count <= MAX_PACKET_SAMPLES,
                1 <= channels <= MAX_CHANNELS,
                packet.sample_count == count,
                forall|i: int|
                    0 <= i < index ==> #[trigger] packet.samples@[i] == self.last_frame@[i
                        % channels as int],
            decreases count - index,
        {
            packet.samples[index] = self.last_frame[index % channels];
            index = index + 1;
        }
        proof {
            assert(packet.audio() =~= held(
                self.last_frame@,
                channels as nat,
                (frames * channels) as nat,
            ));
        }
        packet
    }

    /// Takes the oldest sample.
    pub fn pop_sample(&mut self) -> (sample: Option<u32>)
        requires
            old(self).wf(),
        ensures
            final(self).wf(),
            old(self)@.queue.len() == 0 ==> sample is None && final(self)@ == old(self)@,
            old(self)@.queue.len() > 0 ==> {
                &&& sample == Some(old(self)@.queue[0])
                &&& final(self)@ == (Playout { queue: old(self)@.queue.skip(1), ..old(self)@ })
            },
    {
        self.ring.pop()
    }

    /// Forgets the oldest `count` samples, or all where there are fewer.
    pub fn drop_oldest_samples(&mut self, count: usize)
        requires
            old(self).wf(),
        ensures
            final(self).wf(),
            final(self)@ == (Playout {
                queue: old(self)@.queue.skip(
                    if count < old(self)@.queue.len() {
                        count as int
                    } else {
                        old(self)@.queue.len() as int
                    },
                ),
                ..old(self)@
            }),
    {
        self.ring.drop_oldest(count)
    }

    /// Gives up the oldest samples beyond `MAX_BUFFER_PACKETS` packets' worth.
    pub fn trim_queue(&mut self, level: StreamLevel, channels: u8)
        requires
            old(self).wf(),
            channels <= MAX_CHANNELS,
        ensures
            final(self).wf(),
            final(self)@ == (Playout {
                queue: crate::ring::newest(
                    old(self)@.queue,
                    level.frames() * channels as nat * MAX_BUFFER_PACKETS as nat,
                ),
                ..old(self)@
            }),
    {
        proof {
            lemma_packet_samples(level, channels);
        }
        let max_samples: usize = level.packet_frames() * channels as usize * MAX_BUFFER_PACKETS;
        let overflow: usize = self.ring.queued().saturating_sub(max_samples);
        if overflow > 0 {
            self.drop_oldest_samples(overflow);
        }
    }

    /// Forgets what is queued, what was heard last, and that playing had begun.
    fn flush(&mut self)
        requires
            old(self).wf(),
        ensures
            final(self).wf(),
            final(self)@ == old(self)@.flushed(),
    {
        self.ring.clear();
        self.last_frame = [0u32; MAX_CHANNELS];
        self.primed = false;
        proof {
            assert(self.last_frame@ =~= silent_frame());
        }
    }

    /// Starts afresh where nothing has arrived for `STREAM_IDLE_TIMEOUT`.
    pub fn handle_idle_timeout(&mut self, now: u64)
        requires
            old(self).wf(),
        ensures
            final(self).wf(),
            final(self)@ == old(self)@.idled(now),
    {
        let last_packet_at: u64 = match self.last_packet_at {
            None => {
                return;
            },
            Some(at) => at,
        };
        if now.saturating_sub(last_packet_at) < STREAM_IDLE_TIMEOUT {
            return;
        }
        self.flush();
        self.last_sequence = None;
        self.last_packet_at = None;
    }

    /// Whether nothing has arrived for `STALL_SILENCE_TIMEOUT`.
    pub fn is_stalled(&self, now: u64) -> (stalled: bool)
        ensures
            stalled == self@.quiet_for(STALL_SILENCE_TIMEOUT, now),
    {
        match self.last_packet_at {
            None => false,
            Some(at) => now.saturating_sub(at) >= STALL_SILENCE_TIMEOUT,
        }
    }

    /// Forgets what is queued and plays silence.
    pub fn clear_stalled_stream(
        &mut self,
        outputs: &mut AudioBlock,
        channels: usize,
        frames: usize,
    )
        requires
            old(self).wf(),
            channels <= old(outputs)@.len(),
            crate::block::covers(old(outputs)@, channels as int, frames as int),
        ensures
            final(self).wf(),
            final(self)@ == old(self)@.flushed(),
            final(outputs)@ == crate::block::rendered(
                old(outputs)@,
                channels as int,
                0,
                frames as int,
                crate::block::silence(frames as nat, channels as nat),
            ),
    {
        self.flush();
        outputs.mute(channels, 0, frames);
    }

    /// Takes in a packet.
    pub fn receive_packet(
        &mut self,
        packet: ReceiverPacket,
        now: u64,
        level: StreamLevel,
        channels: u8,
    )
        requires
            old(self).wf(),
            packet.wf(),
            1 <= channels <= MAX_CHANNELS,
        ensures
            final(self).wf(),
            final(self)@ == old(self)@.arrived(
                packet.sequence,
                packet.audio(),
                now,
                level,
                channels,
            ),
    {
        let ghost before = self@;
        let ghost limit = level.frames() * channels as nat * MAX_BUFFER_PACKETS as nat;
        let missing_packets: usize = match self.accept_sequence(Some(packet.sequence)) {
            None => {
                return;
            },
            Some(missing) => missing,
        };
        self.last_packet_at = Some(now);
        self.packets_received = self.packets_received.saturating_add(1);
        let ghost noted = self@;
        proof {
            self.ring.lemma_len();
            lemma_packet_samples(level, channels);
        }
        if missing_packets > 0 {
            self.enqueue_concealment_packets(missing_packets, level, channels);
        }
        let ghost fill = held(
            before.last_frame,
            channels as nat,
            missing_packets as nat * (level.frames() * channels as nat),
        );
        proof {
            if missing_packets == 0 {
                assert(0nat * (level.frames() * channels as nat) == 0) by (nonlinear_arith);
                assert(before.queue + fill =~= before.queue);
            }
            assert(self@.queue == crate::ring::newest(
                before.queue + fill,
                MAX_BUFFER_SAMPLES as nat,
            ));
        }
        self.enqueue_packet(packet);
        self.trim_queue(level, channels);
        proof {
            let audio = packet.audio();
            crate::ring::law_newest_composes(
                before.queue + fill,
                audio,
                MAX_BUFFER_SAMPLES as nat,
                MAX_BUFFER_SAMPLES as nat,
            );
            let all = before.queue + fill + audio;
            crate::ring::law_newest_composes(
                all,
                Seq::<u32>::empty(),
                MAX_BUFFER_SAMPLES as nat,
                limit,
            );
            assert(all + Seq::<u32>::empty() =~= all);
            assert(crate::ring::newest(all, MAX_BUFFER_SAMPLES as nat) + Seq::<u32>::empty()
                =~= crate::ring::newest(all, MAX_BUFFER_SAMPLES as nat));
            assert(self@ =~= before.arrived(packet.sequence, audio, now, level, channels));
        }
    }

    /// Takes in what the worker has, at most `MAX_PACKETS_PER_CALLBACK` packets. `gone` tells that
    /// the worker will have no more.
    pub fn receive_into_queue(
        &mut self,
        level: StreamLevel,
        channels: u8,
        arrivals: &mut VecDeque<ReceiverPacket>,
        gone: bool,
        now: u64,
    )
        requires
            old(self).wf(),
            packets_wf(old(arrivals)@),
            1 <= channels <= MAX_CHANNELS,
        ensures
            final(self).wf(),
            final(self)@ == old(self)@.taken_in(old(arrivals)@, gone, now, level, channels),
            final(arrivals)@ == (if old(self)@.connected {
                left_over(old(arrivals)@)
            } else {
                old(arrivals)@
            }),
    {
        if !self.connected {
            return;
        }
        let ghost before = self@;
        let ghost packets = arrivals@;
        let mut taken: usize = 0;
        let mut open: bool = true;
        while taken < MAX_PACKETS_PER_CALLBACK && open
            invariant
                taken <= MAX_PACKETS_PER_CALLBACK,
                taken <= packets.len(),
                self.wf(),
                packets_wf(packets),
                1 <= channels <= MAX_CHANNELS,
                arrivals@ == packets.skip(taken as int),
                !open ==> taken == packets.len() && taken < MAX_PACKETS_PER_CALLBACK,
                self@ == (if !open && gone {
                    Playout::fresh()
                } else {
                    before.arrived_all(packets, taken as nat, now, level, channels)
                }),
            decreases MAX_PACKETS_PER_CALLBACK - taken, (if open { 1int } else { 0int }),
        {
            match arrivals.pop_front() {
                Some(packet) => {
                    proof {
                        assert(packet == packets[taken as int]);
                        assert(packets.skip(taken as int).subrange(
                            1,
                            packets.len() - taken,
                        ) =~= packets.skip(taken + 1));
                    }
                    self.receive_packet(packet, now, level, channels);
                    taken = taken + 1;
                },
                None => {
                    if gone {
                        self.reset_local();
                    }
                    open = false;
                },
            }
        }
        proof {
            assert(arrivals@ =~= left_over(packets));
        }
    }

    /// Plays the next frame. Where the queue ends within it, plays its beginning and tells so.
    fn play_frame(&mut self, outputs: &mut AudioBlock, channels: usize, frame: usize) -> (whole:
        bool)
        requires
            old(self).wf(),
            channels <= MAX_CHANNELS,
            channels <= old(outputs)@.len(),
            crate::block::covers(old(outputs)@, channels as int, frame + 1),
        ensures
            final(self).wf(),
            whole == (old(self)@.queue.len() >= channels),
            final(self)@ == (Playout {
                queue: old(self)@.queue.skip(shorter(channels as int, old(self)@.queue)),
                last_frame: overlaid(
                    old(self)@.last_frame,
                    old(self)@.queue,
                    shorter(channels as int, old(self)@.queue),
                ),
                ..old(self)@
            }),
            final(outputs)@ == crate::block::framed(
                old(outputs)@,
                shorter(channels as int, old(self)@.queue),
                frame as int,
                old(self)@.queue,
            ),
    {
        let ghost before = self@;
        let ghost buffers = outputs@;
        let mut channel: usize = 0;
        proof {
            assert(before.queue.skip(0) =~= before.queue);
            assert(overlaid(before.last_frame, before.queue, 0) =~= before.last_frame);
            assert(buffers =~= crate::block::framed(buffers, 0, frame as int, before.queue));
        }
        while channel < channels
            invariant
                before == old(self)@,
                buffers == old(outputs)@,
                channel <= channels <= MAX_CHANNELS,
                channels <= buffers.len(),
                channel <= before.queue.len(),
                before.last_frame.len() == MAX_CHANNELS,
                self.wf(),
                crate::block::covers(buffers, channels as int, frame + 1),
                self@ == (Playout {
                    queue: before.queue.skip(channel as int),
                    last_frame: overlaid(before.last_frame, before.queue, channel as int),
                    ..before
                }),
                outputs@ == crate::block::framed(
                    buffers,
                    channel as int,
                    frame as int,
                    before.queue,
                ),
            decreases channels - channel,
        {
            let ghost entry = self@;
            match self.pop_sample() {
                None => {
                    return false;
                },
                Some(sample) => {
                    self.last_frame[channel] = sample;
                    assert(outputs@[channel as int] == buffers[channel as int]);
                    outputs.write(channel, frame, sample);
                    proof {
                        assert(entry.queue.skip(1) =~= before.queue.skip(channel + 1));
                        assert(self@.last_frame =~= overlaid(
                            before.last_frame,
                            before.queue,
                            channel + 1,
                        ));
                        assert(outputs@ =~= crate::block::framed(
                            buffers,
                            channel + 1,
                            frame as int,
                            before.queue,
                        ));
                    }
                },
            }
            channel = channel + 1;
        }
        true
    }

    /// Plays a callback from the queue.
    #[verifier::rlimit(30)]
    fn play(&mut self, level: StreamLevel, channels: u8, outputs: &mut AudioBlock, frames: usize)
        requires
            old(self).wf(),
            1 <= channels <= MAX_CHANNELS,
            old(outputs).wf(),
            crate::block::covers(old(outputs)@, channels as int, frames as int),
            crate::stream::target_samples(level, channels as nat, frames as nat) <= usize::MAX,
        ensures
            final(self).wf(),
            final(outputs).wf(),
            final(self)@ == old(self)@.played(level, channels, frames as nat),
            final(outputs)@ == crate::block::rendered(
                old(outputs)@,
                channels as int,
                0,
                frames as int,
                old(self)@.sound(level, channels, frames as nat),
            ),
    {
        let ghost base = self@;
        let ghost q = base.queue;
        let ghost n = frames as nat;
        let ghost c = channels as int;
        let ghost buffers = outputs@;
        let ghost sound = base.sound(level, channels, n);
        let width: usize = channels as usize;
        self.last_callback_frames = frames;
        self.target_buffer_samples = target_buffer_samples(level, width, frames);
        let queued: usize = self.ring.queued();
        if !self.primed {
            if queued < self.target_buffer_samples {
                outputs.mute(width, 0, frames);
                proof {
                    assert(sound =~~= crate::block::silence(n, channels as nat));
                }
                return;
            }
            self.primed = true;
        }
        let available: usize = queued / width;
        if available == 0 {
            self.underruns = self.underruns.saturating_add(1);
            outputs.mute(width, 0, frames);
            proof {
                assert(sound =~~= crate::block::silence(n, channels as nat));
            }
            return;
        }
        proof {
            lemma_packet_samples(level, channels);
        }
        let packet_samples: usize = level.packet_frames() * width;
        let adjust: i32 = playout_adjustment_frames(
            queued,
            self.target_buffer_samples,
            packet_samples,
            available,
            frames,
        );
        if adjust != 0 {
            self.drift_corrections = self.drift_corrections.saturating_add(1);
        }
        let middle: usize = frames / 2;
        let repeats: bool = adjust < 0 && frames > 1;
        let skips: bool = adjust > 0;
        let ghost ready = self@;
        let ghost s = base.shift(level, channels, n);
        let ghost enough = base.suffices(level, channels, n);
        let ghost most = base.available(channels) as int;
        let mut frame: usize = 0;
        let mut had_source: bool = true;
        let ghost cut = q.skip(most * c);
        proof {
            lemma_frame_fits(q.len() as int, c, 0);
            assert(q.skip(0 * c) =~= q);
            assert(base.last_frame =~= base.heard_until(level, channels, n, 0));
            assert(buffers =~= crate::block::rendered(buffers, c, 0, 0, sound)) by {
                assert forall|i: int| 0 <= i < buffers.len() implies #[trigger] buffers[i]
                    == crate::block::rendered(buffers, c, 0, 0, sound)[i] by {
                    if buffers[i] is Some {
                        assert(crate::block::painted(buffers[i], i, 0, 0, sound)->0
                            =~= buffers[i]->0);
                    }
                }
            }
        }
        while frame < frames && had_source
            invariant
                frame <= frames,
                1 <= channels <= MAX_CHANNELS,
                width == channels,
                c == channels,
                n == frames,
                q == base.queue,
                base.last_frame.len() == MAX_CHANNELS,
                buffers.len() == MAX_CHANNELS,
                crate::block::covers(buffers, c, n as int),
                sound == base.sound(level, channels, n),
                base.plays(level, channels, n),
                middle == frames / 2,
                s == base.shift(level, channels, n),
                enough == base.suffices(level, channels, n),
                most == base.available(channels),
                cut == q.skip(most * c),
                repeats == (s == -1),
                skips == (s == 1) || frames == 0,
                -1 <= s <= 1,
                s == -1 ==> frames > 1,
                s != 0 ==> enough,
                self.wf(),
                outputs.wf(),
                ready.queue == q,
                !enough ==> frame <= most,
                had_source ==> self@ == (Playout {
                    queue: q.skip(taken_before(middle as int, s, frame as int) * c),
                    last_frame: base.heard_until(level, channels, n, frame as int),
                    ..ready
                }),
                had_source ==> outputs@ == crate::block::rendered(
                    buffers,
                    c,
                    0,
                    frame as int,
                    sound,
                ),
                !had_source ==> {
                    &&& !enough
                    &&& frame == most
                    &&& frame < frames
                    &&& self@ == (Playout {
                        queue: Seq::empty(),
                        last_frame: base.last_heard(level, channels, n),
                        ..ready
                    })
                    &&& outputs@ == crate::block::framed(
                        crate::block::rendered(buffers, c, 0, frame as int, sound),
                        q.len() as int % c,
                        frame as int,
                        cut,
                    )
                },
            decreases frames - frame, (if had_source { 1int } else { 0int }),
        {
            let ghost entry = self@;
            let ghost taken = taken_before(middle as int, s, frame as int);
            if repeats && frame == middle {
                outputs.write_frame(width, frame, self.last_frame.as_slice());
                proof {
                    assert(base.source(level, channels, n, frame as int) == base.source(
                        level,
                        channels,
                        n,
                        frame - 1,
                    ));
                    assert(entry.last_frame =~= base.heard_until(level, channels, n, frame + 1));
                    crate::block::lemma_rendered_grows(
                        buffers,
                        c,
                        frame as int,
                        entry.last_frame,
                        sound,
                    );
                }
                frame = frame + 1;
            } else {
                if skips && frame == middle {
                    self.drop_oldest_samples(width);
                }
                let ghost t = base.source(level, channels, n, frame as int);
                let ghost current = self@.queue;
                proof {
                    lemma_frame_fits(q.len() as int, c, t);
                    lemma_frame_fits(q.len() as int, c, t + 1);
                    lemma_frame_fits(q.len() as int, c, taken);
                    assert((taken + 1) * c == taken * c + c) by (nonlinear_arith);
                    assert((t + 1) * c == t * c + c) by (nonlinear_arith);
                    assert(0 <= taken * c) by (nonlinear_arith)
                        requires
                            0 <= taken,
                            1 <= c,
                    ;
                    assert(t == taken || t == taken + 1);
                    assert(current =~= q.skip(t * c));
                }
                had_source = self.play_frame(outputs, width, frame);
                proof {
                    if had_source {
                        assert(enough || frame < most);
                        assert(taken_before(middle as int, s, frame + 1) == t + 1);
                        assert(current.skip(c) =~= q.skip((t + 1) * c));
                        assert(self@.last_frame =~= base.heard_until(
                            level,
                            channels,
                            n,
                            frame + 1,
                        ));
                        crate::block::lemma_rendered_grows(
                            buffers,
                            c,
                            frame as int,
                            current,
                            sound,
                        );
                    } else {
                        assert(!enough && frame == most && t == most);
                        assert(current.skip(current.len() as int) =~= Seq::<u32>::empty());
                        assert(self@.last_frame =~= base.last_heard(level, channels, n));
                    }
                }
                if had_source {
                    frame = frame + 1;
                }
            }
        }
        if frame < frames {
            self.underruns = self.underruns.saturating_add(1);
            outputs.mute(width, frame, frames);
            proof {
                lemma_frame_fits(q.len() as int, c, most);
                crate::block::lemma_rendered_then_muted(
                    buffers,
                    c,
                    q.len() as int % c,
                    frame as int,
                    n as int,
                    cut,
                    sound,
                );
            }
        } else {
            proof {
                assert(self@.last_frame =~= base.last_heard(level, channels, n));
            }
        }
    }

    /// One callback: starts afresh where the stream is idle, takes in what arrived, and plays the
    /// next frames, or silence where the stream has stalled.
    pub fn pull_block(
        &mut self,
        params: StreamParameters,
        level: StreamLevel,
        outputs: &mut AudioBlock,
        frames: usize,
        arrivals: &mut VecDeque<ReceiverPacket>,
        gone: bool,
        now: u64,
    )
        requires
            old(self).wf(),
            packets_wf(old(arrivals)@),
            1 <= params.channels <= MAX_CHANNELS,
            old(outputs).wf(),
            crate::block::covers(old(outputs)@, params.channels as int, frames as int),
            crate::stream::target_samples(level, params.channels as nat, frames as nat)
                <= usize::MAX,
        ensures
            final(self).wf(),
            final(outputs).wf(),
            final(self)@ == old(self)@.pulled(
                old(arrivals)@,
                gone,
                now,
                level,
                params.channels,
                frames as nat,
            ),
            final(outputs)@ == crate::block::rendered(
                old(outputs)@,
                params.channels as int,
                0,
                frames as int,
                old(self)@.heard(
                    old(arrivals)@,
                    gone,
                    now,
                    level,
                    params.channels,
                    frames as nat,
                ),
            ),
            final(arrivals)@ == (if old(self)@.connected {
                left_over(old(arrivals)@)
            } else {
                old(arrivals)@
            }),
    {
        self.handle_idle_timeout(now);
        self.receive_into_queue(level, params.channels, arrivals, gone, now);
        if self.is_stalled(now) {
            self.clear_stalled_stream(outputs, params.channels as usize, frames);
            return;
        }
        self.play(level, params.channels, outputs, frames);
    }
}

/// The queue never holds more than `MAX_BUFFER_PACKETS` packets' worth once a packet was taken in.
pub proof fn law_queue_is_bounded(
    state: Playout,
    sequence: u16,
    audio: Seq<u32>,
    now: u64,
    level: StreamLevel,
    channels: u8,
)
    requires
        state.accepts(sequence),
    ensures
        state.arrived(sequence, audio, now, level, channels).queue.len() <= level.frames()
            * channels as nat * MAX_BUFFER_PACKETS as nat,
{
}

/// A packet that arrives again is out of order: nothing but the count of such packets changes.
pub proof fn law_duplicates_are_not_played(
    state: Playout,
    sequence: u16,
    audio: Seq<u32>,
    again: Seq<u32>,
    now: u64,
    later: u64,
    level: StreamLevel,
    channels: u8,
)
    requires
        state.accepts(sequence),
    ensures
        ({
            let once = state.arrived(sequence, audio, now, level, channels);
            once.arrived(sequence, again, later, level, channels) == Playout {
                packets_out_of_order: counted(once.packets_out_of_order, 1),
                ..once
            }
        }),
{
    assert(sequence_gap(sequence, sequence) == 0xffff);
}

/// Packets that follow each other lose nothing and need nothing made up, also where the sequence
/// numbers start over.
pub proof fn law_consecutive_packets_leave_no_gap(state: Playout, sequence: u16)
    requires
        state.last_sequence == Some(sequence),
    ensures
        ({
            let next = ((sequence + 1) % 0x1_0000) as u16;
            &&& state.accepts(next)
            &&& state.missing(next) == 0
            &&& state.noted(next).packets_lost == state.packets_lost
        }),
{
}

/// A gap of packets is made up by as many packets' worth of the last frame, up to
/// `MAX_CONCEALMENT_PACKETS_PER_GAP`, so that later audio keeps its place in time.
pub proof fn law_short_gaps_keep_time(
    state: Playout,
    sequence: u16,
    audio: Seq<u32>,
    now: u64,
    level: StreamLevel,
    channels: u8,
)
    requires
        state.accepts(sequence),
        state.missing(sequence) <= MAX_CONCEALMENT_PACKETS_PER_GAP,
        state.queue.len() + (state.missing(sequence) + 1) * (level.frames() * channels as nat)
            <= level.frames() * channels as nat * MAX_BUFFER_PACKETS as nat,
        audio.len() == level.frames() * channels as nat,
    ensures
        state.arrived(sequence, audio, now, level, channels).queue.len() == state.queue.len() + (
        state.missing(sequence) + 1) * (level.frames() * channels as nat),
{
    let unit = (level.frames() * channels as nat) as int;
    let missing = state.missing(sequence);
    assert((missing + 1) * unit == missing * unit + unit) by (nonlinear_arith);
    assert(missing * unit >= 0) by (nonlinear_arith)
        requires
            missing >= 0,
            unit >= 0,
    ;
}

/// A stream from which nothing arrives is heard as silence after `STALL_SILENCE_TIMEOUT`.
pub proof fn law_stalled_stream_is_silent(
    state: Playout,
    now: u64,
    level: StreamLevel,
    channels: u8,
    frames: nat,
)
    requires
        state.quiet_for(STALL_SILENCE_TIMEOUT, now),
        channels >= 1,
    ensures
        state.heard(Seq::empty(), false, now, level, channels, frames) == crate::block::silence(
            frames,
            channels as nat,
        ),
{
    let idled = state.idled(now);
    let nothing = Seq::<ReceiverPacket>::empty();
    assert(idled.arrived_all(nothing, 0, now, level, channels) == idled);
    if state.quiet_for(STREAM_IDLE_TIMEOUT, now) {
        crate::stream::law_target_covers_a_callback(level, channels as nat, frames);
        lemma_level_frames(level);
        assert(2 * (level.frames() * channels as nat) > 0) by (nonlinear_arith)
            requires
                level.frames() >= 1,
                channels >= 1,
        ;
        assert(idled.sound(level, channels, frames) =~~= crate::block::silence(
            frames,
            channels as nat,
        ));
    }
}

/// Playing starts only once the queue has reached its target.
pub proof fn law_silent_until_primed(state: Playout, level: StreamLevel, channels: u8, frames: nat)
    requires
        !state.primed,
        state.queue.len() < crate::stream::target_samples(level, channels as nat, frames),
    ensures
        state.sound(level, channels, frames) == crate::block::silence(frames, channels as nat),
        state.played(level, channels, frames).queue == state.queue,
        !state.played(level, channels, frames).primed,
{
    assert(state.sound(level, channels, frames) =~~= crate::block::silence(
        frames,
        channels as nat,
    ));
}

/// A receiver that has started, or has enough to, and is near its target plays the queue as it is:
/// the next frames, each sample once and in order.
pub proof fn law_steady_playout(state: Playout, level: StreamLevel, channels: u8, frames: nat)
    requires
        channels >= 1,
        state.starts(level, channels, frames),
        state.adjustment(level, channels, frames) == 0,
        frames > 0,
        state.available(channels) >= frames,
    ensures
        ({
            let after = state.played(level, channels, frames);
            &&& after.queue == state.queue.skip(frames * channels)
            &&& after.primed
            &&& after.underruns == state.underruns
            &&& after.drift_corrections == state.drift_corrections
            &&& forall|f: int, c: int|
                0 <= f < frames && 0 <= c < channels ==> #[trigger] state.sound(
                    level,
                    channels,
                    frames,
                )[f][c] == state.queue[f * channels + c]
        }),
{
}

/// Keeping pace with the sender takes at most one frame more or fewer than are played.
pub proof fn law_drift_correction_is_one_frame(
    state: Playout,
    level: StreamLevel,
    channels: u8,
    frames: nat,
)
    requires
        channels >= 1,
        state.plays(level, channels, frames),
        state.suffices(level, channels, frames),
    ensures
        ({
            let taken = state.queue.len() - state.played(level, channels, frames).queue.len();
            (frames - 1) * channels <= taken <= (frames + 1) * channels
        }),
{
    let shift = state.shift(level, channels, frames);
    let c = channels as int;
    lemma_frame_fits(state.queue.len() as int, c, frames + shift);
    assert((frames - 1) * c <= (frames + shift) * c <= (frames + 1) * c) by (nonlinear_arith)
        requires
            -1 <= shift <= 1,
            c >= 1,
    ;
    assert(0 <= (frames + shift) * c) by (nonlinear_arith)
        requires
            0 <= frames + shift,
            c >= 1,
    ;
}

/// Sequence numbers go round. A packet that comes `ahead` packets behind the expected one is in order
/// where that is less than half the way round: as many packets are then counted as lost, and it is
/// the last. Otherwise it is late: it is counted as out of order, and all else stays as it was.
pub proof fn law_sequence_numbers_tell_lost_from_late(
    state: Playout,
    previous: u16,
    sequence: u16,
    ahead: nat,
)
    requires
        state.last_sequence == Some(previous),
        ahead < 0x1_0000,
        (previous + 1 + ahead) % 0x1_0000 == sequence,
    ensures
        state.accepts(sequence) <==> ahead < 0x8000,
        ahead < 0x8000 ==> {
            let after = state.noted(sequence);
            &&& after.last_sequence == Some(sequence)
            &&& state.packets_lost + ahead <= u64::MAX ==> after.packets_lost == state.packets_lost
                + ahead
            &&& after.packets_out_of_order == state.packets_out_of_order
        },
        ahead >= 0x8000 && state.packets_out_of_order < u64::MAX ==> state.noted(sequence)
            == (Playout { packets_out_of_order: (state.packets_out_of_order + 1) as u64, ..state }),
{
    assert(sequence_gap(previous, sequence) == ahead);
}

/// The first packet is in order, whatever its number, and nothing is lost before it.
pub proof fn law_the_first_packet_is_in_order(state: Playout, sequence: u16)
    requires
        state.last_sequence is None,
    ensures
        state.accepts(sequence),
        state.noted(sequence) == (Playout { last_sequence: Some(sequence), ..state }),
{
}

/// A gap of up to 8 packets is filled, on every channel, with the last sample that was heard on that
/// channel. What was queued stays in front, and the packet's own audio stands behind.
pub proof fn law_gaps_hold_every_channel(
    state: Playout,
    previous: u16,
    sequence: u16,
    lost: nat,
    audio: Seq<u32>,
    now: u64,
    level: StreamLevel,
    channels: u8,
)
    requires
        1 <= channels <= 96,
        state.last_frame.len() == 96,
        state.last_sequence == Some(previous),
        lost <= 8,
        (previous + 1 + lost) % 0x1_0000 == sequence,
        state.queue.len() + lost * level.frames() * channels as nat + audio.len() <= level.frames()
            * channels as nat * 128,
    ensures
        ({
            let after = state.arrived(sequence, audio, now, level, channels);
            let old_len = state.queue.len();
            let made_up = lost * level.frames() * channels as nat;
            &&& after.queue.len() == old_len + made_up + audio.len()
            &&& forall|i: int| 0 <= i < old_len ==> #[trigger] after.queue[i] == state.queue[i]
            &&& forall|f: int, c: int|
                #![trigger state.last_frame[c], after.queue[old_len + f * channels + c]]
                0 <= f < lost * level.frames() && 0 <= c < channels ==> after.queue[old_len + f
                    * channels + c] == state.last_frame[c]
            &&& forall|j: int|
                #![trigger audio[j]]
                0 <= j < audio.len() ==> after.queue[old_len + made_up + j] == audio[j]
            &&& after.last_frame == state.last_frame
            &&& after.last_packet_at == Some(now)
        }),
{
    let after = state.arrived(sequence, audio, now, level, channels);
    let old_len = state.queue.len();
    let wide = channels as int;
    let size = level.frames() as int;
    let made_up = lost * level.frames() * channels as nat;
    assert(sequence_gap(previous, sequence) == lost);
    assert(lost * (size * wide) == lost * size * wide) by (nonlinear_arith);
    let fill = held(state.last_frame, channels as nat, made_up);
    let all = state.queue + fill + audio;
    assert(after.queue == all);
    assert forall|f: int, c: int|
        #![trigger state.last_frame[c], after.queue[old_len + f * channels + c]]
        0 <= f < lost * level.frames() && 0 <= c < channels implies after.queue[old_len + f
        * channels + c] == state.last_frame[c] by {
        let i = f * wide + c;
        let count = lost * size;
        assert(0 <= i < count * wide) by (nonlinear_arith)
            requires
                0 <= f < count,
                0 <= c < wide,
                i == f * wide + c,
        ;
        vstd::arithmetic::div_mod::lemma_fundamental_div_mod_converse(i, wide, f, c);
        assert(all[old_len + i] == fill[i]);
    }
}

/// What is held in a gap is what was heard last: after a callback that had frames enough, the last
/// frame that it played, and after one that ran out of whole frames, the last of those.
pub proof fn law_the_last_frame_is_the_last_heard(
    state: Playout,
    level: StreamLevel,
    channels: u8,
    frames: nat,
    channel: int,
)
    requires
        1 <= channels <= state.last_frame.len(),
        0 <= channel < channels,
        state.starts(level, channels, frames),
        state.queue.len() >= channels,
        state.queue.len() % channels as nat == 0,
        frames > 0,
    ensures
        ({
            let after = state.played(level, channels, frames);
            let sound = state.sound(level, channels, frames);
            let queued = state.queue.len() as int / channels as int;
            &&& after.last_frame.len() == state.last_frame.len()
            &&& after.underruns == state.underruns ==> after.last_frame[channel]
                == sound[frames - 1][channel] || state.underruns == u64::MAX
            &&& after.underruns > state.underruns ==> after.last_frame[channel] == state.queue[
                state.queue.len() - channels + channel]
            &&& forall|c: int|
                channels <= c < state.last_frame.len() ==> #[trigger] after.last_frame[c]
                    == state.last_frame[c]
        }),
{
    let wide = channels as int;
    lemma_frame_fits(state.queue.len() as int, wide, 1);
    let available = state.available(channels) as int;
    assert((available - 1) * wide == available * wide - wide) by (nonlinear_arith);
}

/// A receiver that plays and whose queue is more than a packet above its target takes one frame more
/// than it plays, however far above it is, as long as it has one more than the callback asks for: a
/// frame in the middle is skipped, and one drift correction is counted.
pub proof fn law_a_high_queue_comes_down_by_a_frame(
    state: Playout,
    level: StreamLevel,
    channels: u8,
    frames: nat,
)
    requires
        channels >= 1,
        frames >= 1,
        state.starts(level, channels, frames),
        state.queue.len() > crate::stream::target_samples(level, channels as nat, frames)
            + level.frames() * channels as nat,
        state.queue.len() >= (frames + 1) * channels,
    ensures
        ({
            let after = state.played(level, channels, frames);
            let sound = state.sound(level, channels, frames);
            &&& after.queue == state.queue.skip((frames + 1) * channels)
            &&& after.queue.len() == state.queue.len() - (frames + 1) * channels
            &&& state.drift_corrections < u64::MAX ==> after.drift_corrections
                == state.drift_corrections + 1
            &&& after.underruns == state.underruns
            &&& after.primed
            &&& sound.len() == frames
            &&& forall|f: int, c: int|
                0 <= f < frames && 0 <= c < channels ==> #[trigger] sound[f][c] == state.queue[(f
                    + if 2 * f + 1 < frames {
                    0int
                } else {
                    1
                }) * channels + c]
        }),
{
    let wide = channels as int;
    lemma_frame_fits(state.queue.len() as int, wide, frames as int + 1);
    crate::stream::law_drift_is_taken_up_however_large(
        state.queue.len() as int,
        crate::stream::target_samples(level, channels as nat, frames) as int,
        (level.frames() * channels as nat) as int,
        state.available(channels) as int,
        frames as int,
    );
    assert((frames + 1) * wide >= 0) by (nonlinear_arith)
        requires
            wide >= 1,
    ;
}

/// A receiver that plays and whose queue is more than a packet below its target takes one frame fewer
/// than it plays, however far below it is, as long as it has all but one of the frames: the frame
/// before the middle is played twice, and one drift correction is counted.
pub proof fn law_a_low_queue_builds_up_by_a_frame(
    state: Playout,
    level: StreamLevel,
    channels: u8,
    frames: nat,
)
    requires
        channels >= 1,
        frames >= 2,
        state.starts(level, channels, frames),
        crate::stream::target_samples(level, channels as nat, frames) > state.queue.len()
            + level.frames() * channels as nat,
        state.queue.len() >= (frames - 1) * channels,
    ensures
        ({
            let after = state.played(level, channels, frames);
            let sound = state.sound(level, channels, frames);
            &&& after.queue == state.queue.skip((frames - 1) * channels)
            &&& after.queue.len() == state.queue.len() - (frames - 1) * channels
            &&& state.drift_corrections < u64::MAX ==> after.drift_corrections
                == state.drift_corrections + 1
            &&& after.underruns == state.underruns
            &&& after.primed
            &&& sound.len() == frames
            &&& forall|f: int, c: int|
                0 <= f < frames && 0 <= c < channels ==> #[trigger] sound[f][c] == state.queue[(f
                    - if 2 * f + 1 < frames {
                    0int
                } else {
                    1
                }) * channels + c]
        }),
{
    let wide = channels as int;
    lemma_frame_fits(state.queue.len() as int, wide, frames - 1);
    crate::stream::law_drift_is_taken_up_however_large(
        state.queue.len() as int,
        crate::stream::target_samples(level, channels as nat, frames) as int,
        (level.frames() * channels as nat) as int,
        state.available(channels) as int,
        frames as int,
    );
    assert((frames - 1) * wide >= 0) by (nonlinear_arith)
        requires
            wide >= 1,
            frames >= 2,
    ;
}

/// A receiver that plays and has fewer frames than it needs, by more than a frame played twice makes
/// up for, plays the whole frames that it has, then silence, counts one underrun, and is left with
/// nothing.
pub proof fn law_an_underrun_plays_what_is_there(
    state: Playout,
    level: StreamLevel,
    channels: u8,
    frames: nat,
)
    requires
        channels >= 1,
        state.starts(level, channels, frames),
        state.queue.len() < (frames - 1) * channels || (frames == 1 && state.queue.len() < channels),
    ensures
        ({
            let after = state.played(level, channels, frames);
            let sound = state.sound(level, channels, frames);
            &&& after.queue.len() == 0 || (after.queue == state.queue && state.queue.len() < channels)
            &&& state.underruns < u64::MAX ==> after.underruns == state.underruns + 1
            &&& after.primed
            &&& sound.len() == frames
            &&& forall|f: int, c: int|
                0 <= f < frames && 0 <= c < channels ==> #[trigger] sound[f][c] == (if (f + 1)
                    * channels <= state.queue.len() {
                    state.queue[f * channels + c]
                } else {
                    0u32
                })
        }),
{
    let wide = channels as int;
    lemma_frame_fits(state.queue.len() as int, wide, frames - 1);
    crate::stream::law_target_covers_a_callback(level, channels as nat, frames);
    let target = crate::stream::target_samples(level, channels as nat, frames) as int;
    let unit = (level.frames() * channels as nat) as int;
    assert(state.queue.len() <= target) by (nonlinear_arith)
        requires
            target >= (frames + level.frames()) * channels,
            state.queue.len() < (frames - 1) * channels || (frames == 1 && state.queue.len()
                < channels),
            channels >= 1,
    ;
    crate::stream::law_drift_is_taken_up_however_large(
        state.queue.len() as int,
        target,
        unit,
        state.available(channels) as int,
        frames as int,
    );
    lemma_frame_fits(state.queue.len() as int, wide, 1);
    assert(state.shift(level, channels, frames) == 0);
    assert(!state.suffices(level, channels, frames));
    let after = state.played(level, channels, frames);
    assert(after.queue.len() == 0 || (after.queue == state.queue && state.queue.len() < channels));
    assert(state.underruns < u64::MAX ==> after.underruns == state.underruns + 1);
    let sound = state.sound(level, channels, frames);
    assert forall|f: int, c: int|
        0 <= f < frames && 0 <= c < channels implies #[trigger] sound[f][c] == (if (f + 1)
        * channels <= state.queue.len() {
        state.queue[f * channels + c]
    } else {
        0u32
    }) by {
        lemma_frame_fits(state.queue.len() as int, wide, f + 1);
    }
}

/// A receiver that has not started stays silent and keeps what it has until its target is reached.
/// One that has started never waits again.
pub proof fn law_playing_starts_at_the_target(
    state: Playout,
    level: StreamLevel,
    channels: u8,
    frames: nat,
)
    ensures
        state.played(level, channels, frames).primed <==> state.primed || state.queue.len()
            >= crate::stream::target_samples(level, channels as nat, frames),
        state.starts(level, channels, frames) <==> state.primed || state.queue.len()
            >= crate::stream::target_samples(level, channels as nat, frames),
{
}

/// After 20 milliseconds without a packet a receiver is silent and forgets its queue. After 250 it
/// takes whatever comes next as the first packet. Before that it keeps all it has.
pub proof fn law_quiet_streams_fall_silent_and_are_forgotten(
    state: Playout,
    at: u64,
    now: u64,
    level: StreamLevel,
    channels: u8,
    frames: nat,
)
    requires
        state.connected,
        state.last_packet_at == Some(at),
    ensures
        ({
            let nothing = Seq::<ReceiverPacket>::empty();
            let after = state.pulled(nothing, false, now, level, channels, frames);
            let heard = state.heard(nothing, false, now, level, channels, frames);
            &&& now - at < 20_000_000 ==> {
                &&& after == state.played(level, channels, frames)
                &&& heard == state.sound(level, channels, frames)
            }
            &&& 20_000_000 <= now - at < 250_000_000 ==> {
                &&& after.queue.len() == 0
                &&& !after.primed
                &&& after.last_sequence == state.last_sequence
                &&& after.last_frame == Seq::new(96, |c: int| 0u32)
                &&& heard.len() == frames
                &&& forall|f: int, c: int|
                    0 <= f < frames && 0 <= c < channels ==> #[trigger] heard[f][c] == 0u32
            }
            &&& now - at >= 250_000_000 ==> {
                &&& after.queue.len() == 0
                &&& after.last_sequence is None
                &&& after.last_packet_at is None
                &&& after.packets_received == state.packets_received
            }
        }),
{
    let nothing = Seq::<ReceiverPacket>::empty();
    assert(state.arrived_all(nothing, 0, now, level, channels) == state);
    let idled = state.idled(now);
    assert(idled.arrived_all(nothing, 0, now, level, channels) == idled);
    assert(silent_frame() =~= Seq::new(96, |c: int| 0u32));
}

/// A callback takes in the packets that wait in the order in which they do, and 64 of them at most.
/// Those that it does not take in wait for the next.
pub proof fn law_callbacks_take_packets_in_order(
    state: Playout,
    packets: Seq<ReceiverPacket>,
    now: u64,
    level: StreamLevel,
    channels: u8,
)
    requires
        state.connected,
    ensures
        packets.len() == 0 ==> state.taken_in(packets, false, now, level, channels) == state,
        0 < packets.len() <= 64 ==> state.taken_in(packets, false, now, level, channels)
            == state.taken_in(packets.drop_last(), false, now, level, channels).arrived(
            packets.last().sequence,
            packets.last().audio(),
            now,
            level,
            channels,
        ),
        packets.len() > 64 ==> state.taken_in(packets, false, now, level, channels)
            == state.taken_in(packets.take(64), false, now, level, channels),
        packets.len() <= 64 ==> left_over(packets).len() == 0,
        packets.len() > 64 ==> packets.take(64) + left_over(packets) == packets,
{
    if 0 < packets.len() <= 64 {
        let before = packets.drop_last();
        lemma_arrived_same(state, packets, before, before.len(), now, level, channels);
        assert(state.arrived_all(packets, packets.len(), now, level, channels) == state.arrived_all(
            packets,
            (packets.len() - 1) as nat,
            now,
            level,
            channels,
        ).arrived(packets.last().sequence, packets.last().audio(), now, level, channels));
    } else if packets.len() > 64 {
        lemma_arrived_same(state, packets, packets.take(64), 64, now, level, channels);
        assert(packets.take(64) + left_over(packets) =~= packets);
    }
}

/// Only the packets that have arrived make a difference.
proof fn lemma_arrived_same(
    state: Playout,
    one: Seq<ReceiverPacket>,
    other: Seq<ReceiverPacket>,
    count: nat,
    now: u64,
    level: StreamLevel,
    channels: u8,
)
    requires
        forall|i: int| 0 <= i < count ==> #[trigger] one[i] == other[i],
    ensures
        state.arrived_all(one, count, now, level, channels) == state.arrived_all(
            other,
            count,
            now,
            level,
            channels,
        ),
    decreases count,
{
    if count > 0 {
        assert(one[count - 1] == other[count - 1]);
        lemma_arrived_same(state, one, other, (count - 1) as nat, now, level, channels);
    }
}

/// A callback of one frame cannot play a frame twice: it plays the next frame, and a correction is
/// counted all the same.
pub proof fn law_a_single_frame_is_played_once(
    state: Playout,
    level: StreamLevel,
    channels: u8,
    channel: int,
)
    requires
        1 <= channels,
        0 <= channel < channels,
        state.starts(level, channels, 1),
        state.queue.len() >= channels,
        crate::stream::target_samples(level, channels as nat, 1) > state.queue.len() + level.frames()
            * channels as nat,
    ensures
        state.sound(level, channels, 1)[0][channel] == state.queue[channel],
        state.played(level, channels, 1).queue == state.queue.skip(channels as int),
        state.drift_corrections < u64::MAX ==> state.played(level, channels, 1).drift_corrections
            == state.drift_corrections + 1,
{
    lemma_frame_fits(state.queue.len() as int, channels as int, 1);
    crate::stream::law_drift_is_taken_up_however_large(
        state.queue.len() as int,
        crate::stream::target_samples(level, channels as nat, 1) as int,
        (level.frames() * channels as nat) as int,
        state.available(channels) as int,
        1,
    );
}

/// However many packets come, no more than 128 packets' worth is queued, and it is the newest.
pub proof fn law_the_queue_keeps_the_newest(
    state: Playout,
    previous: u16,
    audio: Seq<u32>,
    now: u64,
    level: StreamLevel,
    channels: u8,
)
    requires
        state.last_sequence == Some(previous),
    ensures
        ({
            let next = ((previous + 1) % 0x1_0000) as u16;
            let after = state.arrived(next, audio, now, level, channels);
            let all = state.queue + audio;
            let limit = level.frames() * channels as nat * 128;
            &&& after.queue.len() == if all.len() <= limit {
                all.len()
            } else {
                limit
            }
            &&& after.queue == all.skip(all.len() - after.queue.len())
            &&& state.packets_received < u64::MAX ==> after.packets_received
                == state.packets_received + 1
        }),
{
    let next = ((previous + 1) % 0x1_0000) as u16;
    assert(sequence_gap(previous, next) == 0);
    let unit = (level.frames() * channels as nat) as int;
    assert(0 * unit == 0) by (nonlinear_arith);
    let none = held(state.last_frame, channels as nat, 0);
    assert(state.queue + none + audio =~= state.queue + audio);
    let all = state.queue + audio;
    assert(all.skip(0) =~= all);
}

/// A gap of more than 8 packets is filled with 8 packets' worth, and all that are missing are counted.
pub proof fn law_long_gaps_are_filled_in_part(
    state: Playout,
    previous: u16,
    sequence: u16,
    lost: nat,
    audio: Seq<u32>,
    now: u64,
    level: StreamLevel,
    channels: u8,
)
    requires
        state.last_sequence == Some(previous),
        8 < lost < 0x8000,
        (previous + 1 + lost) % 0x1_0000 == sequence,
        state.queue.len() + 8 * level.frames() * channels as nat + audio.len() <= level.frames()
            * channels as nat * 128,
        state.packets_lost + lost <= u64::MAX,
    ensures
        ({
            let after = state.arrived(sequence, audio, now, level, channels);
            &&& after.queue.len() == state.queue.len() + 8 * level.frames() * channels as nat
                + audio.len()
            &&& after.packets_lost == state.packets_lost + lost
        }),
{
    assert(sequence_gap(previous, sequence) == lost);
    let size = level.frames() as int;
    let wide = channels as int;
    assert(8 * (size * wide) == 8 * size * wide) by (nonlinear_arith);
}

/// A receiver whose worker has gone, and whose packets are all taken in, forgets everything.
pub proof fn law_a_gone_worker_is_forgotten(
    state: Playout,
    packets: Seq<ReceiverPacket>,
    now: u64,
    level: StreamLevel,
    channels: u8,
)
    requires
        state.connected,
        packets.len() < 64,
    ensures
        ({
            let after = state.taken_in(packets, true, now, level, channels);
            &&& after.stream is None
            &&& !after.connected
            &&& after.queue.len() == 0
            &&& !after.primed
            &&& after.last_sequence is None
            &&& after.packets_received == 0
        }),
{
}

/// The counters of a receiver's audio side stop at their end.
pub proof fn law_counters_stop_at_their_end(counter: u64, more: int)
    requires
        more >= 0,
    ensures
        counter + more <= u64::MAX ==> counted(counter, more) == counter + more,
        counter + more > u64::MAX ==> counted(counter, more) == u64::MAX,
{
}

} // verus!
