//! Audio devices: which one is meant, how it is opened, and how its samples are laid out.

use crate::block::AudioBlock;
use crate::lines::{contains, to_ascii_lowercase};
use crate::stream::MAX_CHANNELS;
use crate::text::{chars_of, push_chars, push_decimal, same_text};
use vstd::prelude::*;
use vstd::string::*;

verus! {

/// How many frames are made room for where the device does not say how many it takes.
pub const DEFAULT_PREALLOCATED_CALLBACK_FRAMES: usize = 2048;

/// How many frames are made room for at most.
pub const MAX_PREALLOCATED_CALLBACK_FRAMES: usize = 16_384;

/// A device that can be chosen.
#[derive(Clone, Debug)]
pub struct DeviceChoice {
    pub id: String,
    pub name: String,
    pub input: bool,
    pub output: bool,
    pub input_default: String,
    pub output_default: String,
}

impl DeviceChoice {
    /// What a device is asked for by: its number, or its name where it has none.
    pub fn query(&self) -> (query: &str)
        ensures
            query@ == (if self.id@.len() == 0 {
                self.name@
            } else {
                self.id@
            }),
    {
        if self.id.as_str().unicode_len() == 0 {
            self.name.as_str()
        } else {
            self.id.as_str()
        }
    }

    /// Whether a query is exactly the device's number or name.
    pub fn matches_query(&self, query: &str) -> (matches: bool)
        ensures
            matches == (self.id@ == query@ || self.name@ == query@),
    {
        same_text(self.id.as_str(), query) || same_text(self.name.as_str(), query)
    }
}

/// Whether a query, in whatever case, is part of a device's number or of its label.
pub open spec fn is_meant(query: Seq<char>, id: Seq<char>, label: Seq<char>) -> bool {
    crate::lines::occurs_in(crate::lines::lowered(id), crate::lines::lowered(query))
        || crate::lines::occurs_in(crate::lines::lowered(label), crate::lines::lowered(query))
}

/// Finds the first device that a query is meant for, by the devices' numbers and labels.
pub fn find_device(query: &str, devices: &Vec<(String, String)>) -> (found: Option<usize>)
    ensures
        match found {
            Some(index) => {
                &&& index < devices@.len()
                &&& is_meant(query@, devices@[index as int].0@, devices@[index as int].1@)
                &&& forall|i: int|
                    0 <= i < index ==> !#[trigger] is_meant(
                        query@,
                        devices@[i].0@,
                        devices@[i].1@,
                    )
            },
            None => forall|i: int|
                0 <= i < devices@.len() ==> !#[trigger] is_meant(
                    query@,
                    devices@[i].0@,
                    devices@[i].1@,
                ),
        },
{
    let chars: Vec<char> = chars_of(query);
    let sought: Vec<char> = to_ascii_lowercase(chars.as_slice());
    let mut index: usize = 0;
    while index < devices.len()
        invariant
            index <= devices@.len(),
            sought@ == crate::lines::lowered(query@),
            forall|i: int|
                0 <= i < index ==> !#[trigger] is_meant(query@, devices@[i].0@, devices@[i].1@),
        decreases devices@.len() - index,
    {
        let id_chars: Vec<char> = chars_of(devices[index].0.as_str());
        let label_chars: Vec<char> = chars_of(devices[index].1.as_str());
        let id: Vec<char> = to_ascii_lowercase(id_chars.as_slice());
        let label: Vec<char> = to_ascii_lowercase(label_chars.as_slice());
        if contains(id.as_slice(), sought.as_slice()) || contains(
            label.as_slice(),
            sought.as_slice(),
        ) {
            return Some(index);
        }
        index = index + 1;
    }
    None
}

/// What is said where a query is meant for no device.
pub fn no_device_message(query: &str) -> (text: String)
    ensures
        text@ == "no matching audio device for '"@ + crate::lines::lowered(query@) + "'"@,
{
    let chars: Vec<char> = chars_of(query);
    let sought: Vec<char> = to_ascii_lowercase(chars.as_slice());
    let mut text: String = "no matching audio device for '".to_owned();
    push_chars(&mut text, sought.as_slice());
    text.append("'");
    text
}

/// How a device's samples are written.
#[derive(Clone, Copy, Debug, PartialEq, Eq, Structural)]
pub enum SampleKind {
    F32,
    F64,
    I32,
    I16,
    U32,
    U16,
    Other,
}

impl SampleKind {
    /// Which kind is preferred: the smaller, the sooner.
    pub open spec fn rank(self) -> u8 {
        match self {
            SampleKind::F32 => 0,
            SampleKind::F64 => 1,
            SampleKind::I32 => 2,
            SampleKind::I16 => 3,
            SampleKind::U32 => 4,
            SampleKind::U16 => 5,
            SampleKind::Other => 20,
        }
    }
}

/// Which kind is preferred: the smaller, the sooner.
pub fn sample_format_rank(kind: SampleKind) -> (rank: u8)
    ensures
        rank == kind.rank(),
{
    match kind {
        SampleKind::F32 => 0,
        SampleKind::F64 => 1,
        SampleKind::I32 => 2,
        SampleKind::I16 => 3,
        SampleKind::U32 => 4,
        SampleKind::U16 => 5,
        SampleKind::Other => 20,
    }
}

/// A way in which a device can be opened.
#[derive(Clone, Copy, Debug, PartialEq, Eq, Structural)]
pub struct ConfigRange {
    pub channels: u16,
    pub min_sample_rate: u32,
    pub max_sample_rate: u32,
    pub kind: SampleKind,
}

impl ConfigRange {
    /// Whether it has the channels and the sample rate.
    pub open spec fn suits(self, channels: u8, sample_rate_hz: u32) -> bool {
        self.channels >= channels && self.min_sample_rate <= sample_rate_hz <= self.max_sample_rate
    }

    /// Whether it is preferred to another: for its kind, and then for having fewer channels too
    /// many.
    pub open spec fn is_preferred_to(self, other: ConfigRange) -> bool {
        self.kind.rank() < other.kind.rank() || (self.kind.rank() == other.kind.rank()
            && self.channels < other.channels)
    }
}

/// Chooses the way in which a device is opened: of those that suit, the first that none is
/// preferred to.
pub fn select_config(configs: &Vec<ConfigRange>, channels: u8, sample_rate_hz: u32) -> (selected:
    Option<usize>)
    ensures
        match selected {
            Some(index) => {
                &&& index < configs@.len()
                &&& configs@[index as int].suits(channels, sample_rate_hz)
                &&& forall|i: int|
                    0 <= i < configs@.len() && (#[trigger] configs@[i]).suits(
                        channels,
                        sample_rate_hz,
                    ) ==> !configs@[i].is_preferred_to(configs@[index as int])
                &&& forall|i: int|
                    0 <= i < index && (#[trigger] configs@[i]).suits(channels, sample_rate_hz)
                        ==> configs@[index as int].is_preferred_to(configs@[i])
            },
            None => forall|i: int|
                0 <= i < configs@.len() ==> !(#[trigger] configs@[i]).suits(
                    channels,
                    sample_rate_hz,
                ),
        },
{
    let mut selected: Option<usize> = None;
    let mut index: usize = 0;
    while index < configs.len()
        invariant
            index <= configs@.len(),
            match selected {
                Some(best) => {
                    &&& best < index
                    &&& configs@[best as int].suits(channels, sample_rate_hz)
                    &&& forall|i: int|
                        0 <= i < index && (#[trigger] configs@[i]).suits(channels, sample_rate_hz)
                            ==> !configs@[i].is_preferred_to(configs@[best as int])
                    &&& forall|i: int|
                        0 <= i < best && (#[trigger] configs@[i]).suits(channels, sample_rate_hz)
                            ==> configs@[best as int].is_preferred_to(configs@[i])
                },
                None => forall|i: int|
                    0 <= i < index ==> !(#[trigger] configs@[i]).suits(channels, sample_rate_hz),
            },
        decreases configs@.len() - index,
    {
        let config: ConfigRange = configs[index];
        if config.channels >= channels as u16 && config.min_sample_rate <= sample_rate_hz
            && config.max_sample_rate >= sample_rate_hz {
            match selected {
                None => {
                    selected = Some(index);
                },
                Some(best) => {
                    let current: ConfigRange = configs[best];
                    let rank: u8 = sample_format_rank(config.kind);
                    let best_rank: u8 = sample_format_rank(current.kind);
                    if rank < best_rank || (rank == best_rank && config.channels
                        < current.channels) {
                        selected = Some(index);
                    }
                },
            }
        }
        index = index + 1;
    }
    selected
}

/// The sample rates that a stream can have.
pub open spec fn is_stream_rate(sample_rate_hz: u32) -> bool {
    sample_rate_hz == 44_100 || sample_rate_hz == 48_000 || sample_rate_hz == 96_000
}

/// Checks a sample rate. Says what is wrong with one that a stream cannot have.
pub fn validate_sample_rate(sample_rate_hz: u32) -> (valid: Result<(), String>)
    ensures
        valid is Ok <==> is_stream_rate(sample_rate_hz),
        valid matches Err(text) ==> text@ == "unsupported sample rate "@ + crate::text::decimal(
            sample_rate_hz as nat,
        ) + "; SomeNET currently supports 44100, 48000, or 96000 Hz"@,
{
    if sample_rate_hz == 44_100 || sample_rate_hz == 48_000 || sample_rate_hz == 96_000 {
        return Ok(());
    }
    let mut text: String = "unsupported sample rate ".to_owned();
    push_decimal(&mut text, sample_rate_hz as u64);
    text.append("; SomeNET currently supports 44100, 48000, or 96000 Hz");
    Err(text)
}

/// A sample rate is valid exactly where there is a level for it, whatever the channels.
pub proof fn law_valid_rates_have_levels(sample_rate_hz: u32, channels: u8)
    requires
        1 <= channels <= MAX_CHANNELS,
    ensures
        is_stream_rate(sample_rate_hz) <==> crate::stream::level_of(sample_rate_hz, channels) is Some,
{
}

/// How many frames are made room for, by what the device takes at once.
pub fn preallocated_callback_frames(fixed: Option<u32>) -> (frames: usize)
    ensures
        frames == (match fixed {
            None => DEFAULT_PREALLOCATED_CALLBACK_FRAMES as int,
            Some(count) => if count < 1 {
                1
            } else if count > MAX_PREALLOCATED_CALLBACK_FRAMES {
                MAX_PREALLOCATED_CALLBACK_FRAMES as int
            } else {
                count as int
            },
        }),
{
    match fixed {
        None => DEFAULT_PREALLOCATED_CALLBACK_FRAMES,
        Some(count) => if count < 1 {
            1
        } else if count > 16_384 {
            MAX_PREALLOCATED_CALLBACK_FRAMES
        } else {
            count as usize
        },
    }
}

/// The sample of a channel at a frame of interleaved samples: silence where the device has no such
/// channel.
pub open spec fn device_sample(data: Seq<u32>, width: int, channel: int, frame: int) -> u32 {
    if channel < width {
        data[frame * width + channel]
    } else {
        crate::sample::SILENCE
    }
}

/// A frame that is whole lies in the data.
proof fn lemma_frame_lies_in_data(length: int, width: int, frame: int, channel: int)
    requires
        width >= 1,
        0 <= frame < length / width,
        0 <= channel < width,
    ensures
        0 <= frame * width + channel < length,
{
    vstd::arithmetic::div_mod::lemma_fundamental_div_mod(length, width);
    assert(frame * width + channel < length) by (nonlinear_arith)
        requires
            length == width * (length / width) + length % width,
            0 <= length % width,
            frame + 1 <= length / width,
            channel < width,
            width >= 1,
    ;
    assert(frame * width >= 0) by (nonlinear_arith)
        requires
            frame >= 0,
            width >= 1,
    ;
}

/// One channel of interleaved samples.
fn channel_of(data: &Vec<u32>, width: usize, channel: usize) -> (samples: Vec<u32>)
    requires
        width >= 1,
    ensures
        samples@ == Seq::new(
            data@.len() / width as nat,
            |f: int| device_sample(data@, width as int, channel as int, f),
        ),
{
    let length: usize = data.len();
    let frames: usize = length / width;
    let mut samples: Vec<u32> = Vec::with_capacity(frames);
    let mut frame: usize = 0;
    while frame < frames
        invariant
            width >= 1,
            length == data@.len(),
            frames == data@.len() / width as nat,
            frame <= frames,
            samples@.len() == frame,
            forall|f: int|
                0 <= f < frame ==> #[trigger] samples@[f] == device_sample(
                    data@,
                    width as int,
                    channel as int,
                    f,
                ),
        decreases frames - frame,
    {
        if channel < width {
            proof {
                lemma_frame_lies_in_data(
                    data@.len() as int,
                    width as int,
                    frame as int,
                    channel as int,
                );
                lemma_frame_lies_in_data(data@.len() as int, width as int, frame as int, 0);
            }
            samples.push(data[frame * width + channel]);
        } else {
            samples.push(0);
        }
        frame = frame + 1;
    }
    proof {
        assert(samples@ =~= Seq::new(
            data@.len() / width as nat,
            |f: int| device_sample(data@, width as int, channel as int, f),
        ));
    }
    samples
}

/// The buffers of a stream's channels, from a device's interleaved samples.
pub open spec fn from_device(data: Seq<u32>, width: int, channels: int) -> Seq<Option<Seq<u32>>> {
    Seq::new(
        MAX_CHANNELS as nat,
        |c: int|
            if c < channels {
                Some(
                    Seq::new(data.len() / width as nat, |f: int| device_sample(data, width, c, f)),
                )
            } else {
                None
            },
    )
}

/// Takes a device's interleaved samples apart into the channels of a stream. A device has at least
/// one channel, and a stream no more than it can have.
pub fn deinterleave(data: &Vec<u32>, device_channels: u16, network_channels: u8) -> (block:
    AudioBlock)
    ensures
        block.wf(),
        block@ == from_device(
            data@,
            device_width(device_channels),
            network_channels as int,
        ),
{
    let width: usize = if device_channels < 1 {
        1
    } else {
        device_channels as usize
    };
    let channels: usize = if network_channels as usize > MAX_CHANNELS {
        MAX_CHANNELS
    } else {
        network_channels as usize
    };
    let mut block = AudioBlock::new();
    let mut channel: usize = 0;
    while channel < channels
        invariant
            channel <= channels <= MAX_CHANNELS,
            width >= 1,
            block.wf(),
            forall|c: int|
                0 <= c < channel ==> #[trigger] block@[c] == Some(
                    Seq::new(
                        data@.len() / width as nat,
                        |f: int| device_sample(data@, width as int, c, f),
                    ),
                ),
            forall|c: int| channel <= c < MAX_CHANNELS ==> #[trigger] block@[c] is None,
        decreases channels - channel,
    {
        block.connect(channel, channel_of(data, width, channel));
        channel = channel + 1;
    }
    proof {
        assert(block@ =~= from_device(data@, width as int, network_channels as int));
    }
    block
}

/// A device's interleaved samples, from the buffers of a stream's channels: silence on the
/// channels that the stream has not.
pub open spec fn to_device(buffers: Seq<Option<Seq<u32>>>, width: int, frames: nat) -> Seq<u32> {
    Seq::new(
        (frames * width) as nat,
        |i: int|
            if i % width < MAX_CHANNELS {
                crate::block::sample_at(buffers, i % width, i / width)
            } else {
                crate::sample::SILENCE
            },
    )
}

/// How many channels a device has: at least one.
pub open spec fn device_width(device_channels: u16) -> int {
    if device_channels < 1 {
        1
    } else {
        device_channels as int
    }
}

/// Puts the channels of a stream together into a device's interleaved samples. A device has at
/// least one channel.
pub fn interleave(block: &AudioBlock, device_channels: u16, frames: usize) -> (data: Vec<u32>)
    requires
        block.wf(),
        crate::block::covers(block@, MAX_CHANNELS as int, frames as int),
        frames * device_channels <= usize::MAX,
    ensures
        data@ == to_device(block@, device_width(device_channels), frames as nat),
{
    let width: usize = if device_channels < 1 {
        1
    } else {
        device_channels as usize
    };
    let count: usize = frames * width;
    let mut data: Vec<u32> = Vec::with_capacity(count);
    let mut index: usize = 0;
    while index < count
        invariant
            width == device_width(device_channels),
            width >= 1,
            count == frames * width,
            index <= count,
            block.wf(),
            crate::block::covers(block@, MAX_CHANNELS as int, frames as int),
            data@.len() == index,
            forall|i: int|
                0 <= i < index ==> #[trigger] data@[i] == to_device(
                    block@,
                    width as int,
                    frames as nat,
                )[i],
        decreases count - index,
    {
        proof {
            vstd::arithmetic::div_mod::lemma_fundamental_div_mod(index as int, width as int);
            let whole = index as int / width as int;
            assert(whole < frames) by (nonlinear_arith)
                requires
                    index < frames * width,
                    index == width * whole + index as int % width as int,
                    0 <= index as int % width as int,
                    width >= 1,
            ;
        }
        let channel: usize = index % width;
        let frame: usize = index / width;
        if channel < MAX_CHANNELS {
            data.push(block.sample(channel, frame));
        } else {
            data.push(0);
        }
        index = index + 1;
    }
    proof {
        assert(data@ =~= to_device(block@, width as int, frames as nat));
    }
    data
}

/// What a device put in comes out again, where the stream has its channels.
pub proof fn law_interleaving_round_trip(data: Seq<u32>, width: int, channels: int)
    requires
        1 <= width <= channels <= MAX_CHANNELS,
        data.len() % width as nat == 0,
    ensures
        to_device(from_device(data, width, channels), width, data.len() / width as nat) == data,
{
    let frames = data.len() / width as nat;
    vstd::arithmetic::div_mod::lemma_fundamental_div_mod(data.len() as int, width);
    assert(frames * width == width * frames) by (nonlinear_arith);
    let back = to_device(from_device(data, width, channels), width, frames);
    assert forall|i: int| 0 <= i < data.len() implies back[i] == data[i] by {
        vstd::arithmetic::div_mod::lemma_fundamental_div_mod(i, width);
        vstd::arithmetic::div_mod::lemma_mod_bound(i, width);
        let whole = i / width;
        assert(0 <= whole < frames) by (nonlinear_arith)
            requires
                0 <= i < width * frames,
                i == width * whole + i % width,
                0 <= i % width < width,
                width >= 1,
        ;
        assert(whole * width == width * whole) by (nonlinear_arith);
    }
    assert(back =~= data);
}

/// What is shown of a chosen device: its name, or the query where there is no such device, or
/// which one is used where none was chosen.
pub open spec fn shown_device(
    selected: Option<Seq<char>>,
    devices: Seq<DeviceChoice>,
    default_label: Seq<char>,
    from: int,
) -> Seq<char>
    decreases devices.len() - from,
{
    match selected {
        None => "Default ("@ + default_label + ")"@,
        Some(query) => if from < 0 || from >= devices.len() {
            query
        } else if devices[from].id@ == query || devices[from].name@ == query {
            devices[from].name@
        } else {
            shown_device(selected, devices, default_label, from + 1)
        },
    }
}

/// What is shown of a chosen device.
pub fn selected_device_label(
    selected: Option<&str>,
    devices: &Vec<DeviceChoice>,
    default_label: &str,
) -> (text: String)
    ensures
        text@ == shown_device(
            match selected {
                None => None,
                Some(query) => Some(query@),
            },
            devices@,
            default_label@,
            0,
        ),
{
    let query: &str = match selected {
        None => {
            let mut text: String = "Default (".to_owned();
            text.append(default_label);
            text.append(")");
            return text;
        },
        Some(query) => query,
    };
    let mut index: usize = 0;
    while index < devices.len()
        invariant
            index <= devices@.len(),
            selected == Some(query),
            shown_device(Some(query@), devices@, default_label@, index as int) == shown_device(
                Some(query@),
                devices@,
                default_label@,
                0,
            ),
        decreases devices@.len() - index,
    {
        if devices[index].matches_query(query) {
            return devices[index].name.clone();
        }
        index = index + 1;
    }
    query.to_owned()
}

/// The format that is shown of a device: of its input, or else of its output.
pub fn device_format(device: &DeviceChoice) -> (format: &str)
    ensures
        format@ == (if device.input_default@.len() > 0 {
            device.input_default@
        } else {
            device.output_default@
        }),
{
    if device.input_default.as_str().unicode_len() > 0 {
        device.input_default.as_str()
    } else {
        device.output_default.as_str()
    }
}

/// A stream's channel of what a device records is the device's channel of the same number, frame by
/// frame, and silence where the device has none. There are as many channels as the stream has.
pub proof fn law_channels_of_a_device_are_recorded(
    data: Seq<u32>,
    width: int,
    channels: int,
    channel: int,
    frame: int,
)
    requires
        1 <= width,
        channels <= 96,
        0 <= channel < 96,
        0 <= frame < data.len() as int / width,
    ensures
        from_device(data, width, channels).len() == 96,
        channel >= channels ==> from_device(data, width, channels)[channel] is None,
        channel < channels ==> {
            let buffer = from_device(data, width, channels)[channel];
            &&& buffer is Some
            &&& buffer->0.len() == data.len() as int / width
            &&& channel < width ==> buffer->0[frame] == data[frame * width + channel]
            &&& channel >= width ==> buffer->0[frame] == 0u32
        },
{
}

/// A device's channel plays the stream's channel of the same number, frame by frame, and silence where
/// the stream has none.
pub proof fn law_channels_of_a_stream_are_played(
    buffers: Seq<Option<Seq<u32>>>,
    width: int,
    frames: nat,
    channel: int,
    frame: int,
)
    requires
        buffers.len() == 96,
        0 <= channel < width,
        0 <= frame < frames,
    ensures
        to_device(buffers, width, frames).len() == frames * width,
        0 <= frame * width + channel < frames * width,
        to_device(buffers, width, frames)[frame * width + channel] == (if channel < 96
            && buffers[channel] is Some {
            buffers[channel]->0[frame]
        } else {
            0u32
        }),
{
    let at = frame * width + channel;
    assert(0 <= at < frames * width) by (nonlinear_arith)
        requires
            0 <= frame < frames,
            0 <= channel < width,
            at == frame * width + channel,
    ;
    vstd::arithmetic::div_mod::lemma_fundamental_div_mod_converse(at, width, frame, channel);
}

/// Which kinds of samples are preferred: the one that needs no conversion first, and those that are not
/// known last.
pub proof fn law_kinds_of_samples_are_ranked()
    ensures
        SampleKind::F32.rank() < SampleKind::F64.rank() < SampleKind::I32.rank()
            < SampleKind::I16.rank() < SampleKind::U32.rank() < SampleKind::U16.rank()
            < SampleKind::Other.rank(),
{
}

/// A way of opening a device suits where it has at least the channels and its rates include the one
/// that is asked for. Of two that suit, the better kind of samples wins, and of the same kind the one
/// with fewer channels.
pub proof fn law_suitable_ways_are_ordered(
    one: ConfigRange,
    other: ConfigRange,
    channels: u8,
    sample_rate_hz: u32,
)
    ensures
        one.suits(channels, sample_rate_hz) <==> channels <= one.channels && one.min_sample_rate
            <= sample_rate_hz && sample_rate_hz <= one.max_sample_rate,
        one.kind == SampleKind::F32 && other.kind != SampleKind::F32 ==> one.is_preferred_to(other),
        one.kind == other.kind ==> (one.is_preferred_to(other) <==> one.channels < other.channels),
        one.is_preferred_to(other) ==> !other.is_preferred_to(one),
        one.kind != other.kind ==> one.is_preferred_to(other) || other.is_preferred_to(one),
{
}

/// A query is meant for a device where it stands somewhere in the device's number or label, letter by
/// letter, whatever the case of the letters.
pub proof fn law_queries_find_parts_of_names(
    query: Seq<char>,
    id: Seq<char>,
    label: Seq<char>,
    at: int,
)
    requires
        0 <= at,
        at + query.len() <= label.len(),
        forall|i: int|
            0 <= i < query.len() ==> crate::lines::lower(#[trigger] query[i])
                == crate::lines::lower(label[at + i]),
    ensures
        is_meant(query, id, label),
        is_meant(query, label, id),
{
    let text = crate::lines::lowered(label);
    let sought = crate::lines::lowered(query);
    assert(text.subrange(at, at + sought.len()) =~= sought);
    assert(crate::lines::occurs_at(text, sought, at));
}

/// A query that is longer than a device's number and label is not meant for it.
pub proof fn law_queries_fit_into_names(query: Seq<char>, id: Seq<char>, label: Seq<char>)
    requires
        is_meant(query, id, label),
    ensures
        exists|at: int, name: Seq<char>|
            {
                &&& name == id || name == label
                &&& 0 <= at
                &&& at + query.len() <= name.len()
                &&& #[trigger] is_part_at(query, name, at)
            },
{
    let sought = crate::lines::lowered(query);
    let name = if crate::lines::occurs_in(crate::lines::lowered(id), sought) {
        id
    } else {
        label
    };
    let text = crate::lines::lowered(name);
    let at = choose|at: int| crate::lines::occurs_at(text, sought, at);
    assert forall|i: int| 0 <= i < query.len() implies crate::lines::lower(#[trigger] query[i])
        == crate::lines::lower(name[at + i]) by {
        assert(text.subrange(at, at + sought.len())[i] == sought[i]);
    }
    assert(is_part_at(query, name, at));
}

/// Whether a query stands at a place of a name, whatever the case of the letters.
pub open spec fn is_part_at(query: Seq<char>, name: Seq<char>, at: int) -> bool {
    forall|i: int|
        0 <= i < query.len() ==> crate::lines::lower(#[trigger] query[i]) == crate::lines::lower(
            name[at + i],
        )
}

/// What is shown of a chosen device: of the first that goes by the query its name, and where none
/// does, the query.
pub proof fn law_chosen_devices_are_shown(
    query: Seq<char>,
    devices: Seq<DeviceChoice>,
    default_label: Seq<char>,
    at: int,
)
    ensures
        (forall|i: int|
            0 <= i < devices.len() ==> (#[trigger] devices[i]).id@ != query && devices[i].name@
                != query) ==> shown_device(Some(query), devices, default_label, 0) == query,
        0 <= at < devices.len() && (devices[at].id@ == query || devices[at].name@ == query) && (
        forall|i: int|
            0 <= i < at ==> (#[trigger] devices[i]).id@ != query && devices[i].name@ != query)
            ==> shown_device(Some(query), devices, default_label, 0) == devices[at].name@,
        shown_device(None, devices, default_label, 0) == "Default ("@ + default_label + ")"@,
{
    if forall|i: int|
        0 <= i < devices.len() ==> (#[trigger] devices[i]).id@ != query && devices[i].name@ != query {
        lemma_shown_device(query, devices, default_label, 0, devices.len() as int);
    }
    if 0 <= at < devices.len() && (forall|i: int|
        0 <= i < at ==> (#[trigger] devices[i]).id@ != query && devices[i].name@ != query) {
        lemma_shown_device(query, devices, default_label, 0, at);
    }
}

/// Devices that do not go by a query are passed over.
proof fn lemma_shown_device(
    query: Seq<char>,
    devices: Seq<DeviceChoice>,
    default_label: Seq<char>,
    from: int,
    at: int,
)
    requires
        0 <= from <= at <= devices.len(),
        forall|i: int|
            from <= i < at ==> (#[trigger] devices[i]).id@ != query && devices[i].name@ != query,
    ensures
        shown_device(Some(query), devices, default_label, from) == shown_device(
            Some(query),
            devices,
            default_label,
            at,
        ),
    decreases at - from,
{
    if from < at {
        lemma_shown_device(query, devices, default_label, from + 1, at);
    }
}

/// A device without channels counts as one with one.
pub proof fn law_devices_have_a_channel(device_channels: u16)
    ensures
        device_channels > 0 ==> device_width(device_channels) == device_channels,
        device_channels == 0 ==> device_width(device_channels) == 1,
{
}

} // verus!
