//! The audio processor that a host runs: its parameters, its buses, and what it does with a
//! callback's audio.

use crate::arrangement::{arrangement_channel_count, speaker_arrangement_for_channels};
use crate::block::AudioBlock;
use crate::params::{
    default_stream_parameters, parameter_spec, IntParamSpec, PlainParameters, PARAM_APPLY_SEQ,
    PARAM_CHANNELS, PARAM_ENABLED, PARAM_MODE, PARAM_TRANSPORT,
};
use crate::receiver::{NetworkReceiver, ReceiverStatus, WorkerOrder};
use crate::rtp::ReceiverPacket;
use crate::sender::{NetworkSender, SenderStatus};
use crate::status::status_due;
use crate::stream::{StreamMode, StreamParameters, MAX_CHANNELS};
use std::collections::VecDeque;
use vstd::prelude::*;

verus! {

/// One of the processor's buses.
#[derive(Clone, Copy, Debug, PartialEq, Eq, Structural)]
pub enum BusSide {
    Input,
    Output,
}

/// What a bus holds: of each channel, the samples of a callback.
pub open spec fn bus_audio(bus: Seq<Vec<u32>>) -> Seq<Seq<u32>> {
    bus.map_values(|channel: Vec<u32>| channel@)
}

/// Whether every channel of a bus holds so many frames.
pub open spec fn holds_frames(bus: Seq<Vec<u32>>, frames: nat) -> bool {
    forall|c: int| 0 <= c < bus.len() ==> (#[trigger] bus[c])@.len() == frames
}

/// What goes out where the audio is only passed on: the input, and silence on the channels that it
/// has not.
pub open spec fn passed_on(input: Seq<Seq<u32>>, channels: nat, frames: nat) -> Seq<Seq<u32>> {
    Seq::new(
        channels,
        |c: int|
            if c < input.len() {
                input[c]
            } else {
                Seq::new(frames, |f: int| crate::sample::SILENCE)
            },
    )
}

/// The first channels of a bus, as many as a stream can have, as the buffers of a block.
pub open spec fn as_buffers(bus: Seq<Seq<u32>>) -> Seq<Option<Seq<u32>>> {
    Seq::new(
        MAX_CHANNELS as nat,
        |c: int|
            if c < bus.len() {
                Some(bus[c])
            } else {
                None
            },
    )
}

/// A bus after the buffers of a block were put back into it.
pub open spec fn with_buffers(bus: Seq<Seq<u32>>, buffers: Seq<Option<Seq<u32>>>) -> Seq<Seq<u32>> {
    Seq::new(
        bus.len(),
        |c: int|
            match buffers[c] {
                Some(buffer) if c < MAX_CHANNELS => buffer,
                _ => bus[c],
            },
    )
}

/// The bus that a sender takes its audio from: the input, or the output where the input has no
/// channels.
pub open spec fn source_of(input: Option<Seq<Seq<u32>>>, output: Option<Seq<Seq<u32>>>) -> Seq<
    Seq<u32>,
> {
    match (input, output) {
        (Some(bus), _) if bus.len() > 0 => bus,
        (_, Some(bus)) => bus,
        _ => Seq::empty(),
    }
}

/// A sender passes its input on unchanged, on every channel that the output has, and what it sends
/// is a copy of the input.
pub proof fn law_senders_pass_their_input_on(
    input: Seq<Seq<u32>>,
    output_channels: nat,
    frames: nat,
    channel: int,
)
    requires
        0 <= channel < input.len(),
    ensures
        channel < output_channels ==> passed_on(input, output_channels, frames)[channel]
            == input[channel],
        source_of(Some(input), Some(passed_on(input, output_channels, frames))) == input,
{
}

/// What a bus holds, where there is one.
pub open spec fn optional_audio(bus: Option<Vec<Vec<u32>>>) -> Option<Seq<Seq<u32>>> {
    match bus {
        None => None,
        Some(channels) => Some(bus_audio(channels@)),
    }
}

/// A copy of samples.
fn copied(samples: &Vec<u32>) -> (copy: Vec<u32>)
    ensures
        copy@ == samples@,
{
    let mut copy: Vec<u32> = Vec::with_capacity(samples.len());
    let mut index: usize = 0;
    while index < samples.len()
        invariant
            index <= samples@.len(),
            copy@ == samples@.take(index as int),
        decreases samples@.len() - index,
    {
        copy.push(samples[index]);
        index = index + 1;
        proof {
            assert(samples@.take(index as int) =~= samples@.take(index - 1).push(
                samples@[index - 1],
            ));
        }
    }
    proof {
        assert(samples@.take(samples@.len() as int) =~= samples@);
    }
    copy
}

/// Passes the input on to the output.
pub fn copy_input_to_output(input: &Option<Vec<Vec<u32>>>, output: &mut Vec<Vec<u32>>, frames: usize)
    requires
        input matches Some(bus) ==> holds_frames(bus@, frames as nat),
    ensures
        holds_frames(final(output)@, frames as nat),
        bus_audio(final(output)@) == passed_on(
            match optional_audio(*input) {
                Some(bus) => bus,
                None => Seq::empty(),
            },
            old(output)@.len(),
            frames as nat,
        ),
{
    let ghost source = match optional_audio(*input) {
        Some(bus) => bus,
        None => Seq::empty(),
    };
    let count: usize = output.len();
    let mut channel: usize = 0;
    while channel < count
        invariant
            channel <= count,
            count == output@.len(),
            input matches Some(bus) ==> holds_frames(bus@, frames as nat),
            source == (match optional_audio(*input) {
                Some(bus) => bus,
                None => Seq::empty(),
            }),
            forall|c: int|
                0 <= c < channel ==> (#[trigger] output@[c])@ == passed_on(
                    source,
                    count as nat,
                    frames as nat,
                )[c],
            forall|c: int| 0 <= c < channel ==> (#[trigger] output@[c])@.len() == frames,
        decreases count - channel,
    {
        let samples: Vec<u32> = match input {
            Some(bus) => if channel < bus.len() {
                assert(bus@[channel as int]@ == source[channel as int]);
                copied(&bus[channel])
            } else {
                vec![0u32; frames]
            },
            None => vec![0u32; frames],
        };
        proof {
            assert(samples@ =~= passed_on(source, count as nat, frames as nat)[channel as int]);
        }
        output.set(channel, samples);
        channel = channel + 1;
    }
    proof {
        assert(bus_audio(output@) =~= passed_on(source, count as nat, frames as nat));
    }
}

/// The first channels of a bus as a block.
fn block_of(bus: &Vec<Vec<u32>>) -> (block: AudioBlock)
    ensures
        block.wf(),
        block@ == as_buffers(bus_audio(bus@)),
{
    let mut block = AudioBlock::new();
    let mut channel: usize = 0;
    while channel < bus.len() && channel < MAX_CHANNELS
        invariant
            channel <= bus@.len(),
            channel <= MAX_CHANNELS,
            block.wf(),
            forall|c: int| 0 <= c < channel ==> #[trigger] block@[c] == Some(bus@[c]@),
            forall|c: int| channel <= c < MAX_CHANNELS ==> #[trigger] block@[c] is None,
        decreases bus@.len() - channel,
    {
        block.connect(channel, copied(&bus[channel]));
        channel = channel + 1;
    }
    proof {
        assert(block@ =~= as_buffers(bus_audio(bus@)));
    }
    block
}

/// The audio that a sender takes.
pub fn collect_source_channels(input: &Option<Vec<Vec<u32>>>, output: &Option<Vec<Vec<u32>>>) -> (block:
    AudioBlock)
    ensures
        block.wf(),
        block@ == as_buffers(source_of(optional_audio(*input), optional_audio(*output))),
{
    if let Some(bus) = input {
        if bus.len() > 0 {
            return block_of(bus);
        }
    }
    if let Some(bus) = output {
        return block_of(bus);
    }
    let block = AudioBlock::new();
    proof {
        assert(block@ =~= as_buffers(source_of(optional_audio(*input), optional_audio(*output))));
    }
    block
}

/// Puts the buffers of a block back into a bus.
fn put_back(block: &AudioBlock, bus: &mut Vec<Vec<u32>>)
    requires
        block.wf(),
    ensures
        bus_audio(final(bus)@) == with_buffers(bus_audio(old(bus)@), block@),
        final(bus)@.len() == old(bus)@.len(),
{
    let ghost before = bus_audio(bus@);
    let count: usize = bus.len();
    let mut channel: usize = 0;
    while channel < count && channel < MAX_CHANNELS
        invariant
            channel <= count,
            channel <= MAX_CHANNELS,
            count == bus@.len(),
            count == before.len(),
            block.wf(),
            forall|c: int|
                0 <= c < channel ==> (#[trigger] bus@[c])@ == with_buffers(before, block@)[c],
            forall|c: int| channel <= c < count ==> (#[trigger] bus@[c])@ == before[c],
        decreases count - channel,
    {
        assert(block@[channel as int] == match block.channels@[channel as int] {
            None => None,
            Some(b) => Some(b@),
        });
        if let Some(buffer) = &block.channels[channel] {
            bus.set(channel, copied(buffer));
        }
        channel = channel + 1;
    }
    proof {
        assert(bus_audio(bus@) =~= with_buffers(before, block@));
    }
}

/// What is to be done about the workers after a callback.
pub enum ProcessOrder {
    /// The receiver's worker is to be stopped, and this done about the sender's.
    Send(WorkerOrder),
    /// The sender's worker is to be stopped, and this done about the receiver's.
    Receive(WorkerOrder),
}

/// What is written to the runtime status.
#[derive(Clone, Copy)]
pub struct RuntimeStatusSnapshot {
    pub params: StreamParameters,
    pub sample_rate_hz: u32,
    pub sender: SenderStatus,
    pub receiver: ReceiverStatus,
}

/// The audio processor.
pub struct StreamProcessor {
    pub plain: PlainParameters,
    pub input_arrangement: u64,
    pub output_arrangement: u64,
    pub sample_rate_hz: u32,
    pub last_status_write_ms: u64,
    pub sender: NetworkSender,
    pub receiver: NetworkReceiver,
}

/// Whether a change of a parameter starts the stream afresh.
pub open spec fn starts_afresh(id: u32) -> bool {
    id == PARAM_ENABLED || id == PARAM_MODE || id == PARAM_TRANSPORT || id == PARAM_CHANNELS || id
        == PARAM_APPLY_SEQ
}

/// Whether a sender was reset.
pub open spec fn sender_was_reset(before: &NetworkSender, after: &NetworkSender) -> bool {
    &&& after.resetting()
    &&& after.status() == SenderStatus::cleared()
    &&& after.outgoing() == before.outgoing()
}

/// Whether a receiver was reset.
pub open spec fn receiver_was_reset(before: &NetworkReceiver, after: &NetworkReceiver) -> bool {
    &&& after.resetting()
    &&& after.status() == ReceiverStatus::cleared()
    &&& after.playout() == before.playout()
}

impl StreamProcessor {
    pub open spec fn wf(&self) -> bool {
        self.sender.wf() && self.receiver.wf()
    }

    /// The stream that is set.
    pub open spec fn stream(&self) -> StreamParameters {
        self.plain.stream()
    }

    /// A processor that is not set up yet, with buses of as many channels as they can have.
    pub fn new(ssrc: u32) -> (processor: Self)
        ensures
            processor.wf(),
            processor.stream() == crate::params::default_params(),
            processor.plain.value(PARAM_APPLY_SEQ) == 0,
            processor.input_arrangement == crate::arrangement::arrangement_of(MAX_CHANNELS as u8),
            processor.output_arrangement == crate::arrangement::arrangement_of(MAX_CHANNELS as u8),
            processor.sample_rate_hz == 48_000,
            processor.last_status_write_ms == 0,
            processor.sender.outgoing() == crate::sender::Outgoing::fresh(ssrc),
            processor.receiver.playout() == crate::playout::Playout::fresh(),
            !processor.sender.resetting(),
            !processor.receiver.resetting(),
            processor.sender.status() == SenderStatus::cleared(),
            processor.receiver.status() == ReceiverStatus::cleared(),
    {
        let defaults = default_stream_parameters();
        let plain = PlainParameters::from_stream(defaults, 0);
        proof {
            crate::params::law_plain_values_round_trip(defaults, plain);
        }
        let arrangement: u64 = speaker_arrangement_for_channels(MAX_CHANNELS as u8);
        StreamProcessor {
            plain,
            input_arrangement: arrangement,
            output_arrangement: arrangement,
            sample_rate_hz: 48_000,
            last_status_write_ms: 0,
            sender: NetworkSender::new(ssrc),
            receiver: NetworkReceiver::new(),
        }
    }

    /// The stream that is set.
    pub fn parameters(&self) -> (params: StreamParameters)
        ensures
            params == self.stream(),
            crate::state::is_normal(params),
    {
        self.plain.parameters()
    }

    /// Sets the stream that a host has saved. The buses get its channels.
    pub fn apply_state(&mut self, state: StreamParameters)
        requires
            old(self).wf(),
        ensures
            final(self).wf(),
            forall|id: u32|
                id < PARAM_APPLY_SEQ ==> #[trigger] final(self).plain.value(id)
                    == crate::params::plain_of(state, id),
            final(self).plain.value(PARAM_APPLY_SEQ) == old(self).plain.value(PARAM_APPLY_SEQ),
            crate::state::is_normal(state) ==> final(self).stream() == state,
            final(self).input_arrangement == crate::arrangement::arrangement_of(state.channels),
            final(self).output_arrangement == crate::arrangement::arrangement_of(state.channels),
            final(self).sample_rate_hz == old(self).sample_rate_hz,
            final(self).last_status_write_ms == old(self).last_status_write_ms,
            final(self).sender == old(self).sender,
            final(self).receiver == old(self).receiver,
    {
        self.plain = PlainParameters::from_stream(state, self.plain.apply_seq);
        let arrangement: u64 = speaker_arrangement_for_channels(state.channels);
        self.input_arrangement = arrangement;
        self.output_arrangement = arrangement;
        proof {
            if crate::state::is_normal(state) {
                crate::params::law_plain_values_round_trip(state, self.plain);
            }
        }
    }

    /// Starts both ends of the stream afresh. Their workers are to be stopped.
    pub fn reset(&mut self)
        requires
            old(self).wf(),
        ensures
            final(self).wf(),
            sender_was_reset(&old(self).sender, &final(self).sender),
            receiver_was_reset(&old(self).receiver, &final(self).receiver),
            final(self).plain == old(self).plain,
            final(self).input_arrangement == old(self).input_arrangement,
            final(self).output_arrangement == old(self).output_arrangement,
            final(self).sample_rate_hz == old(self).sample_rate_hz,
            final(self).last_status_write_ms == old(self).last_status_write_ms,
    {
        self.sender.reset();
        self.receiver.reset();
    }

    /// Sets a parameter to the value at a step of its range. What has to do with the shape of the
    /// stream starts it afresh; the workers are then to be stopped, which is what is told.
    pub fn apply_parameter_change(&mut self, id: u32, step: u32) -> (afresh: bool)
        requires
            old(self).wf(),
        ensures
            final(self).wf(),
            afresh == starts_afresh(id),
            id >= crate::params::PARAM_COUNT ==> final(self).plain == old(self).plain,
            id < crate::params::PARAM_COUNT ==> crate::params::only_change(
                old(self).plain,
                id,
                crate::params::value_at_step(id, step),
                final(self).plain,
            ),
            final(self).input_arrangement == (if id == PARAM_CHANNELS {
                crate::arrangement::arrangement_of(final(self).stream().channels)
            } else {
                old(self).input_arrangement as nat
            }),
            final(self).output_arrangement == (if id == PARAM_CHANNELS {
                crate::arrangement::arrangement_of(final(self).stream().channels)
            } else {
                old(self).output_arrangement as nat
            }),
            final(self).sample_rate_hz == old(self).sample_rate_hz,
            final(self).last_status_write_ms == old(self).last_status_write_ms,
            if starts_afresh(id) {
                &&& sender_was_reset(&old(self).sender, &final(self).sender)
                &&& receiver_was_reset(&old(self).receiver, &final(self).receiver)
            } else {
                &&& final(self).sender == old(self).sender
                &&& final(self).receiver == old(self).receiver
            },
    {
        let spec: IntParamSpec = match parameter_spec(id) {
            None => {
                return false;
            },
            Some(spec) => spec,
        };
        let plain: u32 = spec.plain_at_step(step);
        let _ = self.plain.set(id, plain);
        if id == PARAM_CHANNELS {
            let arrangement: u64 = speaker_arrangement_for_channels(plain as u8);
            self.input_arrangement = arrangement;
            self.output_arrangement = arrangement;
        }
        if id == PARAM_ENABLED || id == PARAM_MODE || id == PARAM_TRANSPORT || id == PARAM_CHANNELS
            || id == PARAM_APPLY_SEQ {
            self.reset();
            true
        } else {
            false
        }
    }

    /// Sets the speakers of the buses, of which there has to be one each way. Both need the same
    /// number of channels, and at least one. Tells whether they were set.
    pub fn set_bus_arrangements(&mut self, inputs: &[u64], outputs: &[u64]) -> (accepted: bool)
        ensures
            accepted == {
                &&& inputs@.len() == 1
                &&& outputs@.len() == 1
                &&& crate::arrangement::bits_set(inputs@[0] as nat) >= 1
                &&& crate::arrangement::bits_set(inputs@[0] as nat)
                    == crate::arrangement::bits_set(outputs@[0] as nat)
            },
            *final(self) == (if accepted {
                StreamProcessor {
                    input_arrangement: inputs@[0],
                    output_arrangement: outputs@[0],
                    ..*old(self)
                }
            } else {
                *old(self)
            }),
    {
        if inputs.len() != 1 || outputs.len() != 1 {
            return false;
        }
        let input_channels: i32 = arrangement_channel_count(inputs[0]);
        let output_channels: i32 = arrangement_channel_count(outputs[0]);
        if input_channels < 1 || output_channels < 1 || input_channels > MAX_CHANNELS as i32
            || output_channels > MAX_CHANNELS as i32 || input_channels != output_channels {
            return false;
        }
        self.input_arrangement = inputs[0];
        self.output_arrangement = outputs[0];
        true
    }

    /// The speakers of a bus. There is one each way.
    pub fn bus_arrangement(&self, side: Option<BusSide>, index: i32) -> (arrangement: Option<u64>)
        ensures
            arrangement == (if index != 0 {
                None
            } else {
                match side {
                    Some(BusSide::Input) => Some(self.input_arrangement),
                    Some(BusSide::Output) => Some(self.output_arrangement),
                    None => None,
                }
            }),
    {
        if index != 0 {
            return None;
        }
        match side {
            Some(BusSide::Input) => Some(self.input_arrangement),
            Some(BusSide::Output) => Some(self.output_arrangement),
            None => None,
        }
    }

    /// How many channels an audio bus has.
    pub fn bus_channel_count(&self, audio: bool, side: Option<BusSide>, index: i32) -> (channels:
        Option<i32>)
        ensures
            channels == (if !audio || index != 0 {
                None
            } else {
                match side {
                    Some(BusSide::Input) => Some(
                        crate::arrangement::bits_set(self.input_arrangement as nat) as i32,
                    ),
                    Some(BusSide::Output) => Some(
                        crate::arrangement::bits_set(self.output_arrangement as nat) as i32,
                    ),
                    None => None,
                }
            }),
    {
        if !audio {
            return None;
        }
        match self.bus_arrangement(side, index) {
            None => None,
            Some(arrangement) => Some(arrangement_channel_count(arrangement)),
        }
    }

    /// Sets the sample rate.
    pub fn setup_processing(&mut self, sample_rate_hz: u32)
        ensures
            *final(self) == (StreamProcessor { sample_rate_hz, ..*old(self) }),
    {
        self.sample_rate_hz = sample_rate_hz;
    }

    /// One callback. A sender passes its input on and sends it; a receiver plays the stream on its
    /// output. The end that is not in use starts afresh.
    pub fn process(
        &mut self,
        input: &Option<Vec<Vec<u32>>>,
        output: &mut Option<Vec<Vec<u32>>>,
        frames: usize,
        arrivals: &mut VecDeque<ReceiverPacket>,
        gone: bool,
        now: u64,
        ssrc: u32,
    ) -> (order: ProcessOrder)
        requires
            old(self).wf(),
            input matches Some(bus) ==> holds_frames(bus@, frames as nat),
            *old(output) matches Some(bus) ==> holds_frames(bus@, frames as nat),
            crate::playout::packets_wf(old(arrivals)@),
            crate::receiver::received_stream(old(self).stream(), old(self).sample_rate_hz) matches Some(
                stream,
            ) ==> crate::stream::target_samples(
                stream.level,
                stream.params.channels as nat,
                frames as nat,
            ) <= usize::MAX,
        ensures
            final(self).wf(),
            final(self).plain == old(self).plain,
            final(self).input_arrangement == old(self).input_arrangement,
            final(self).output_arrangement == old(self).output_arrangement,
            final(self).sample_rate_hz == old(self).sample_rate_hz,
            final(self).last_status_write_ms == old(self).last_status_write_ms,
            match old(self).stream().mode {
                StreamMode::Send => {
                    let passed = match optional_audio(*old(output)) {
                        None => None,
                        Some(bus) => Some(
                            passed_on(
                                match optional_audio(*input) {
                                    Some(source) => source,
                                    None => Seq::empty(),
                                },
                                bus.len(),
                                frames as nat,
                            ),
                        ),
                    };
                    &&& order matches ProcessOrder::Send(worker) && crate::sender::pushed_audio(
                        &old(self).sender,
                        old(self).stream(),
                        old(self).sample_rate_hz,
                        as_buffers(source_of(optional_audio(*input), passed)),
                        frames as nat,
                        ssrc,
                        &final(self).sender,
                        worker,
                    )
                    &&& receiver_was_reset(&old(self).receiver, &final(self).receiver)
                    &&& optional_audio(*final(output)) == passed
                    &&& final(arrivals)@ == old(arrivals)@
                },
                StreamMode::Receive => {
                    let start = old(self).receiver.start();
                    let params = old(self).stream();
                    let rate = old(self).sample_rate_hz;
                    &&& sender_was_reset(&old(self).sender, &final(self).sender)
                    &&& match optional_audio(*old(output)) {
                        None => {
                            &&& order == ProcessOrder::Receive(WorkerOrder::Keep)
                            &&& optional_audio(*final(output)) is None
                            &&& final(self).receiver == old(self).receiver
                            &&& final(arrivals)@ == old(arrivals)@
                        },
                        Some(bus) => {
                            &&& order == ProcessOrder::Receive(
                                crate::receiver::pulled_order(start, params, rate),
                            )
                            &&& optional_audio(*final(output)) == Some(
                                with_buffers(
                                    bus,
                                    crate::receiver::pulled_buffers(
                                        start,
                                        params,
                                        rate,
                                        as_buffers(bus),
                                        frames as nat,
                                        old(arrivals)@,
                                        gone,
                                        now,
                                    ),
                                ),
                            )
                            &&& final(self).receiver.playout() == crate::receiver::pulled_playout(
                                start,
                                params,
                                rate,
                                frames as nat,
                                old(arrivals)@,
                                gone,
                                now,
                            )
                            &&& final(self).receiver.status() == old(
                                self,
                            ).receiver.status().published(final(self).receiver.playout())
                            &&& final(arrivals)@ == crate::receiver::pulled_packets(
                                start,
                                params,
                                rate,
                                old(arrivals)@,
                            )
                        },
                    }
                },
            },
    {
        let params = self.parameters();
        let sample_rate_hz: u32 = self.sample_rate_hz;
        match params.mode {
            StreamMode::Send => {
                self.receiver.reset();
                if let Some(bus) = output {
                    copy_input_to_output(input, bus, frames);
                }
                let source = collect_source_channels(input, output);
                let order = self.sender.push_audio(params, sample_rate_hz, &source, frames, ssrc);
                ProcessOrder::Send(order)
            },
            StreamMode::Receive => {
                self.sender.reset();
                match output {
                    None => ProcessOrder::Receive(WorkerOrder::Keep),
                    Some(bus) => {
                        let mut block = block_of(bus);
                        let order = self.receiver.pull_audio(
                            params,
                            sample_rate_hz,
                            &mut block,
                            frames,
                            arrivals,
                            gone,
                            now,
                        );
                        put_back(&block, bus);
                        ProcessOrder::Receive(order)
                    },
                }
            },
        }
    }

    /// What is to be written to the runtime status, where it is time to.
    pub fn runtime_status(&mut self, now_ms: u64) -> (snapshot: Option<RuntimeStatusSnapshot>)
        ensures
            snapshot is Some <==> now_ms >= old(self).last_status_write_ms
                + crate::status::STATUS_INTERVAL_MS,
            snapshot matches Some(s) ==> {
                &&& s.params == old(self).stream()
                &&& s.sample_rate_hz == old(self).sample_rate_hz
                &&& s.sender == old(self).sender.status()
                &&& s.receiver == old(self).receiver.status()
            },
            *final(self) == (if snapshot is Some {
                StreamProcessor { last_status_write_ms: now_ms, ..*old(self) }
            } else {
                *old(self)
            }),
    {
        if !status_due(self.last_status_write_ms, now_ms) {
            return None;
        }
        self.last_status_write_ms = now_ms;
        Some(
            RuntimeStatusSnapshot {
                params: self.parameters(),
                sample_rate_hz: self.sample_rate_hz,
                sender: self.sender.status_snapshot(),
                receiver: self.receiver.status_snapshot(),
            },
        )
    }
}

/// The name of a bus.
pub fn bus_name(side: BusSide) -> (name: &'static str)
    ensures
        name@ == (match side {
            BusSide::Input => "Input"@,
            BusSide::Output => "Output"@,
        }),
{
    match side {
        BusSide::Input => "Input",
        BusSide::Output => "Output",
    }
}

/// How many buses there are of a kind: one for audio each way.
pub fn bus_count(audio: bool, side: Option<BusSide>) -> (count: i32)
    ensures
        count == (if audio && side is Some {
            1int
        } else {
            0
        }),
{
    if audio && side.is_some() {
        1
    } else {
        0
    }
}

/// Every channel of the bus that a sender takes its audio from is sent: what goes into the packets for
/// a channel at a frame is what the bus holds there. That bus is the input, or the output where the
/// input has no channels. Channels that the bus has not are sent as silence.
pub proof fn law_every_channel_of_the_bus_is_sent(
    input: Option<Seq<Seq<u32>>>,
    output: Option<Seq<Seq<u32>>>,
    bus: Seq<Seq<u32>>,
    channels: nat,
    from: nat,
    to: nat,
    frame: int,
    channel: int,
)
    requires
        channels <= 96,
        0 <= channel < channels,
        from <= to,
        0 <= frame < to - from,
        input == Some(bus) || (output == Some(bus) && (input is None || input->0.len() == 0)),
        bus.len() > 0,
    ensures
        ({
            let sent = crate::sender::interleaved(
                as_buffers(source_of(input, output)),
                channels,
                from,
                to,
            );
            &&& sent.len() == (to - from) * channels
            &&& sent[frame * channels + channel] == (if channel < bus.len() {
                bus[channel][from + frame]
            } else {
                0u32
            })
        }),
{
    crate::sender::law_interleaved_samples_keep_their_places(
        as_buffers(source_of(input, output)),
        channels,
        from,
        to,
        frame,
        channel,
    );
}

/// What a host's output bus holds after a callback that plays a stream: on every channel of the
/// stream that the bus has, at every frame, what the receiver is heard to play there. Other channels
/// stay as they were.
pub proof fn law_every_output_gets_its_channel_of_the_stream(
    bus: Seq<Seq<u32>>,
    start: crate::playout::Playout,
    params: StreamParameters,
    sample_rate_hz: u32,
    frames: nat,
    packets: Seq<ReceiverPacket>,
    gone: bool,
    now: u64,
)
    requires
        forall|c: int| 0 <= c < bus.len() ==> (#[trigger] bus[c]).len() == frames,
        crate::receiver::received_stream(params, sample_rate_hz) is Some,
        start.plays_stream(crate::receiver::received_stream(params, sample_rate_hz)->0),
    ensures
        ({
            let level = crate::receiver::received_stream(params, sample_rate_hz)->0.level;
            let after = with_buffers(
                bus,
                crate::receiver::pulled_buffers(
                    start,
                    params,
                    sample_rate_hz,
                    as_buffers(bus),
                    frames,
                    packets,
                    gone,
                    now,
                ),
            );
            let heard = start.heard(packets, gone, now, level, params.channels, frames);
            &&& after.len() == bus.len()
            &&& forall|c: int, f: int|
                0 <= c < bus.len() && c < params.channels && 0 <= f < frames
                    ==> #[trigger] after[c][f] == heard[f][c]
            &&& forall|c: int|
                0 <= c < bus.len() ==> (#[trigger] after[c]).len() == frames && (c
                    >= params.channels ==> after[c] == bus[c])
        }),
{
    let after = with_buffers(
        bus,
        crate::receiver::pulled_buffers(
            start,
            params,
            sample_rate_hz,
            as_buffers(bus),
            frames,
            packets,
            gone,
            now,
        ),
    );
    assert forall|c: int| 0 <= c < bus.len() && c >= params.channels implies #[trigger] after[c]
        == bus[c] by {}
}

/// A host's output bus is silent after a callback that joins a stream, on every channel of the
/// stream, and on every channel up to the 96th where there is no stream to receive.
pub proof fn law_outputs_without_a_stream_are_silent(
    bus: Seq<Seq<u32>>,
    start: crate::playout::Playout,
    params: StreamParameters,
    sample_rate_hz: u32,
    frames: nat,
    packets: Seq<ReceiverPacket>,
    gone: bool,
    now: u64,
    channel: int,
    frame: int,
)
    requires
        forall|c: int| 0 <= c < bus.len() ==> (#[trigger] bus[c]).len() == frames,
        match crate::receiver::received_stream(params, sample_rate_hz) {
            None => channel < 96,
            Some(stream) => !start.plays_stream(stream) && channel < params.channels,
        },
        0 <= channel < bus.len(),
        0 <= frame < frames,
    ensures
        with_buffers(
            bus,
            crate::receiver::pulled_buffers(
                start,
                params,
                sample_rate_hz,
                as_buffers(bus),
                frames,
                packets,
                gone,
                now,
            ),
        )[channel][frame] == 0u32,
{
}

/// A sender's output is its input on every channel that both have, and silence on the rest. Nothing
/// of it depends on what is sent.
pub proof fn law_outputs_of_a_sender(
    input: Seq<Seq<u32>>,
    output_channels: nat,
    frames: nat,
    channel: int,
    frame: int,
)
    requires
        0 <= channel < output_channels,
        0 <= frame < frames,
    ensures
        passed_on(input, output_channels, frames).len() == output_channels,
        passed_on(input, output_channels, frames)[channel][frame] == (if channel < input.len() {
            input[channel][frame]
        } else {
            0u32
        }),
{
}

/// Which changes start the stream afresh: switching it on or off, its mode, transport and channels, and
/// the token. The port, the address and the clock wait for the token.
pub proof fn law_changes_that_start_the_stream_afresh(id: u32)
    ensures
        starts_afresh(id) <==> id == 0 || id == 1 || id == 2 || id == 3 || id == 11,
{
}

} // verus!
