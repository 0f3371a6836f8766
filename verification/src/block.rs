//! The buffers of an audio callback.

use crate::stream::MAX_CHANNELS;
use vstd::prelude::*;

verus! {

/// One buffer for each channel that the host has connected.
pub struct AudioBlock {
    pub channels: Vec<Option<Vec<u32>>>,
}

/// Frames of sound: of each frame, a sample for each channel.
pub type Sound = Seq<Seq<u32>>;

/// The sample of a channel at a frame: silence where the channel is not connected.
pub open spec fn sample_at(buffers: Seq<Option<Seq<u32>>>, channel: int, frame: int) -> u32 {
    match buffers[channel] {
        None => crate::sample::SILENCE,
        Some(b) => b[frame],
    }
}

/// A frame of the first `channels` buffers.
pub open spec fn frame_at(buffers: Seq<Option<Seq<u32>>>, channels: nat, frame: int) -> Seq<u32> {
    Seq::new(channels, |c: int| sample_at(buffers, c, frame))
}

/// Frames of silence.
pub open spec fn silence(frames: nat, channels: nat) -> Sound {
    Seq::new(frames, |f: int| Seq::new(channels, |c: int| crate::sample::SILENCE))
}

/// What a buffer holds after the frames from `start` to `end` of one channel of a sound were
/// written to it.
pub open spec fn painted(
    buffer: Option<Seq<u32>>,
    channel: int,
    start: int,
    end: int,
    sound: Sound,
) -> Option<Seq<u32>> {
    match buffer {
        None => None,
        Some(b) => Some(
            Seq::new(
                b.len(),
                |f: int|
                    if start <= f < end {
                        sound[f][channel]
                    } else {
                        b[f]
                    },
            ),
        ),
    }
}

/// What the buffers hold after the frames from `start` to `end` of a sound were written to the
/// first `channels` of them.
pub open spec fn rendered(
    buffers: Seq<Option<Seq<u32>>>,
    channels: int,
    start: int,
    end: int,
    sound: Sound,
) -> Seq<Option<Seq<u32>>> {
    Seq::new(
        buffers.len(),
        |c: int|
            if c < channels {
                painted(buffers[c], c, start, end, sound)
            } else {
                buffers[c]
            },
    )
}

/// What the buffers hold after one frame was written to the first `channels` of them.
pub open spec fn framed(
    buffers: Seq<Option<Seq<u32>>>,
    channels: int,
    frame: int,
    samples: Seq<u32>,
) -> Seq<Option<Seq<u32>>> {
    Seq::new(
        buffers.len(),
        |c: int|
            match buffers[c] {
                Some(b) if c < channels => Some(b.update(frame, samples[c])),
                other => other,
            },
    )
}

/// Writing the frame behind a sound's beginning makes the beginning longer.
pub proof fn lemma_rendered_grows(
    buffers: Seq<Option<Seq<u32>>>,
    channels: int,
    frame: int,
    samples: Seq<u32>,
    sound: Sound,
)
    requires
        0 <= channels <= buffers.len(),
        0 <= frame,
        covers(buffers, channels, frame + 1),
        forall|c: int| 0 <= c < channels ==> #[trigger] samples[c] == sound[frame][c],
    ensures
        framed(rendered(buffers, channels, 0, frame, sound), channels, frame, samples) == rendered(
            buffers,
            channels,
            0,
            frame + 1,
            sound,
        ),
{
    let grown = framed(rendered(buffers, channels, 0, frame, sound), channels, frame, samples);
    let whole = rendered(buffers, channels, 0, frame + 1, sound);
    assert forall|c: int| 0 <= c < buffers.len() implies grown[c] == whole[c] by {
        if c < channels && buffers[c] is Some {
            assert(grown[c]->0 =~= whole[c]->0);
        }
    }
    assert(grown =~= whole);
}

/// Silence behind a sound's beginning covers what was written there.
pub proof fn lemma_rendered_then_muted(
    buffers: Seq<Option<Seq<u32>>>,
    channels: int,
    written: int,
    start: int,
    end: int,
    samples: Seq<u32>,
    sound: Sound,
)
    requires
        0 <= written <= channels <= buffers.len(),
        0 <= start < end,
        covers(buffers, channels, end),
        sound.len() == end,
        forall|f: int, c: int|
            start <= f < end && 0 <= c < channels ==> #[trigger] sound[f][c]
                == crate::sample::SILENCE,
    ensures
        rendered(
            framed(rendered(buffers, channels, 0, start, sound), written, start, samples),
            channels,
            start,
            end,
            silence(end as nat, channels as nat),
        ) == rendered(buffers, channels, 0, end, sound),
{
    let quiet = silence(end as nat, channels as nat);
    let partial = framed(rendered(buffers, channels, 0, start, sound), written, start, samples);
    let muted = rendered(partial, channels, start, end, quiet);
    let whole = rendered(buffers, channels, 0, end, sound);
    assert forall|c: int| 0 <= c < buffers.len() implies muted[c] == whole[c] by {
        if c < channels && buffers[c] is Some {
            assert forall|f: int| start <= f < end implies quiet[f][c] == sound[f][c] by {}
            assert(muted[c]->0 =~= whole[c]->0);
        }
    }
    assert(muted =~= whole);
}

/// Whether the first `channels` buffers that are there hold at least `frames` frames.
pub open spec fn covers(buffers: Seq<Option<Seq<u32>>>, channels: int, frames: int) -> bool {
    forall|c: int|
        0 <= c < channels && c < buffers.len() ==> (#[trigger] buffers[c] matches Some(b)
            ==> b.len() >= frames)
}

/// What the buffers hold after all of them were silenced.
pub open spec fn hushed(buffers: Seq<Option<Seq<u32>>>) -> Seq<Option<Seq<u32>>> {
    Seq::new(
        buffers.len(),
        |c: int|
            match buffers[c] {
                None => None,
                Some(b) => Some(Seq::new(b.len(), |f: int| crate::sample::SILENCE)),
            },
    )
}

impl View for AudioBlock {
    type V = Seq<Option<Seq<u32>>>;

    open spec fn view(&self) -> Seq<Option<Seq<u32>>> {
        Seq::new(
            self.channels@.len(),
            |c: int|
                match self.channels@[c] {
                    None => None,
                    Some(b) => Some(b@),
                },
        )
    }
}

impl AudioBlock {
    pub open spec fn wf(&self) -> bool {
        self@.len() == MAX_CHANNELS
    }

    /// No buffers.
    pub fn new() -> (block: Self)
        ensures
            block.wf(),
            forall|c: int| 0 <= c < MAX_CHANNELS ==> #[trigger] block@[c] is None,
    {
        let mut channels: Vec<Option<Vec<u32>>> = Vec::with_capacity(MAX_CHANNELS);
        let mut index: usize = 0;
        while index < MAX_CHANNELS
            invariant
                index <= MAX_CHANNELS,
                channels@.len() == index,
                forall|c: int| 0 <= c < index ==> #[trigger] channels@[c] is None,
            decreases MAX_CHANNELS - index,
        {
            channels.push(None);
            index = index + 1;
        }
        AudioBlock { channels }
    }

    /// Connects a buffer.
    pub fn connect(&mut self, channel: usize, buffer: Vec<u32>)
        requires
            old(self).wf(),
            channel < MAX_CHANNELS,
        ensures
            final(self).wf(),
            final(self)@ == old(self)@.update(channel as int, Some(buffer@)),
    {
        self.channels.set(channel, Some(buffer));
        proof {
            assert(self@ =~= old(self)@.update(channel as int, Some(buffer@)));
        }
    }

    /// The sample of a channel at a frame: silence where the channel is not connected.
    pub fn sample(&self, channel: usize, frame: usize) -> (sample: u32)
        requires
            channel < self@.len(),
            self@[channel as int] matches Some(b) ==> frame < b.len(),
        ensures
            sample == sample_at(self@, channel as int, frame as int),
    {
        match &self.channels[channel] {
            None => 0,
            Some(buffer) => buffer[frame],
        }
    }

    /// Writes one sample, where the channel is connected.
    pub fn write(&mut self, channel: usize, frame: usize, sample: u32)
        requires
            channel < old(self)@.len(),
            old(self)@[channel as int] matches Some(b) ==> frame < b.len(),
        ensures
            final(self)@ == old(self)@.update(
                channel as int,
                match old(self)@[channel as int] {
                    None => None,
                    Some(b) => Some(b.update(frame as int, sample)),
                },
            ),
    {
        if let Some(buffer) = &mut self.channels[channel] {
            buffer[frame] = sample;
        }
        proof {
            assert(self@ =~= old(self)@.update(
                channel as int,
                match old(self)@[channel as int] {
                    None => None,
                    Some(b) => Some(b.update(frame as int, sample)),
                },
            ));
        }
    }

    /// Writes one frame to the first `channels` buffers.
    pub fn write_frame(&mut self, channels: usize, frame: usize, samples: &[u32])
        requires
            channels <= old(self)@.len(),
            channels <= samples@.len(),
            covers(old(self)@, channels as int, frame + 1),
        ensures
            final(self)@ == framed(old(self)@, channels as int, frame as int, samples@),
    {
        let ghost before = self@;
        let mut channel: usize = 0;
        proof {
            assert(self@ =~= framed(before, 0, frame as int, samples@));
        }
        while channel < channels
            invariant
                channel <= channels <= before.len(),
                channels <= samples@.len(),
                covers(before, channels as int, frame + 1),
                self@ == framed(before, channel as int, frame as int, samples@),
            decreases channels - channel,
        {
            assert(self@[channel as int] == before[channel as int]);
            self.write(channel, frame, samples[channel]);
            channel = channel + 1;
            proof {
                assert(self@ =~= framed(before, channel as int, frame as int, samples@));
            }
        }
    }

    /// Silences the frames from `start` to `end` of the first `channels` buffers.
    pub fn mute(&mut self, channels: usize, start: usize, end: usize)
        requires
            channels <= old(self)@.len(),
            start <= end,
            covers(old(self)@, channels as int, end as int),
        ensures
            final(self)@ == rendered(
                old(self)@,
                channels as int,
                start as int,
                end as int,
                silence(end as nat, channels as nat),
            ),
    {
        let ghost before = self@;
        let ghost quiet = silence(end as nat, channels as nat);
        let mut channel: usize = 0;
        proof {
            assert(self@ =~= rendered(before, 0, start as int, end as int, quiet));
        }
        while channel < channels
            invariant
                channel <= channels <= before.len(),
                start <= end,
                quiet == silence(end as nat, channels as nat),
                covers(before, channels as int, end as int),
                self@ == rendered(before, channel as int, start as int, end as int, quiet),
            decreases channels - channel,
        {
            let ghost entry = self@;
            assert(entry[channel as int] == before[channel as int]);
            let mut frame: usize = start;
            proof {
                if before[channel as int] is Some {
                    assert(painted(before[channel as int], channel as int, start as int, start as int, quiet)->0 =~= before[channel as int]->0);
                }
                assert(self@ =~= entry.update(
                    channel as int,
                    painted(before[channel as int], channel as int, start as int, start as int, quiet),
                ));
            }
            while frame < end
                invariant
                    start <= frame <= end,
                    channel < channels <= before.len(),
                    quiet == silence(end as nat, channels as nat),
                    covers(before, channels as int, end as int),
                    entry.len() == before.len(),
                    self@ == entry.update(
                        channel as int,
                        painted(before[channel as int], channel as int, start as int, frame as int, quiet),
                    ),
                decreases end - frame,
            {
                let ghost step = self@;
                self.write(channel, frame, 0);
                frame = frame + 1;
                proof {
                    let next = painted(before[channel as int], channel as int, start as int, frame as int, quiet);
                    if before[channel as int] is Some {
                        assert(step[channel as int]->0.update(frame - 1, 0u32) =~= next->0);
                    }
                    assert(self@ =~= entry.update(channel as int, next));
                }
            }
            channel = channel + 1;
            proof {
                assert(self@ =~= rendered(before, channel as int, start as int, end as int, quiet));
            }
        }
    }

    /// Silences every buffer.
    pub fn mute_all(&mut self)
        ensures
            final(self)@ == hushed(old(self)@),
    {
        let ghost before = self@;
        let count: usize = self.channels.len();
        let mut channel: usize = 0;
        while channel < count
            invariant
                channel <= count,
                count == before.len(),
                self@.len() == before.len(),
                forall|c: int| 0 <= c < channel ==> #[trigger] self@[c] == hushed(before)[c],
                forall|c: int| channel <= c < count ==> #[trigger] self@[c] == before[c],
            decreases count - channel,
        {
            let length: usize = match &self.channels[channel] {
                None => 0,
                Some(buffer) => buffer.len(),
            };
            let ghost entry = self@;
            let mut frame: usize = 0;
            while frame < length
                invariant
                    frame <= length,
                    channel < count,
                    count == before.len(),
                    entry.len() == before.len(),
                    entry[channel as int] == before[channel as int],
                    length == (match before[channel as int] {
                        None => 0,
                        Some(b) => b.len(),
                    }),
                    self@.len() == before.len(),
                    forall|c: int|
                        0 <= c < count && c != channel ==> #[trigger] self@[c] == entry[c],
                    before[channel as int] is None ==> self@[channel as int] is None,
                    before[channel as int] matches Some(b) ==> (self@[channel as int] matches Some(
                        now,
                    ) && now.len() == b.len() && (forall|f: int|
                        0 <= f < frame ==> #[trigger] now[f] == 0u32)),
                decreases length - frame,
            {
                self.write(channel, frame, 0);
                frame = frame + 1;
            }
            proof {
                if before[channel as int] is Some {
                    assert(self@[channel as int]->0 =~= hushed(before)[channel as int]->0);
                }
            }
            channel = channel + 1;
        }
        proof {
            assert(self@ =~= hushed(before));
        }
    }
}

/// What is written to a callback's buffers: on the first channels that are there, each frame from the
/// start to the end as it sounds. Frames outside of these, other channels, and which buffers there are
/// stay as they were.
pub proof fn law_sounds_are_written_to_their_channels(
    buffers: Seq<Option<Seq<u32>>>,
    channels: int,
    start: int,
    end: int,
    sound: Sound,
    channel: int,
    frame: int,
)
    requires
        0 <= channel < buffers.len(),
    ensures
        ({
            let after = rendered(buffers, channels, start, end, sound);
            &&& after.len() == buffers.len()
            &&& buffers[channel] is None ==> after[channel] is None
            &&& channel >= channels ==> after[channel] == buffers[channel]
            &&& buffers[channel] matches Some(buffer) ==> {
                &&& after[channel] is Some
                &&& after[channel]->0.len() == buffer.len()
                &&& channel < channels && 0 <= frame < buffer.len() && start <= frame < end
                    ==> after[channel]->0[frame] == sound[frame][channel]
                &&& 0 <= frame < buffer.len() && !(start <= frame < end)
                    ==> after[channel]->0[frame] == buffer[frame]
            }
        }),
{
}

/// Silencing the buffers leaves each as long as it was, and nothing in it.
pub proof fn law_silenced_buffers_are_zero(
    buffers: Seq<Option<Seq<u32>>>,
    channel: int,
    frame: int,
)
    requires
        0 <= channel < buffers.len(),
    ensures
        hushed(buffers).len() == buffers.len(),
        buffers[channel] is None ==> hushed(buffers)[channel] is None,
        buffers[channel] matches Some(buffer) ==> {
            &&& hushed(buffers)[channel] is Some
            &&& hushed(buffers)[channel]->0.len() == buffer.len()
            &&& 0 <= frame < buffer.len() ==> hushed(buffers)[channel]->0[frame] == 0u32
        },
{
}

/// A frame is a sample of each channel, and of one that is not there silence.
pub proof fn law_frames_are_samples_of_each_channel(
    buffers: Seq<Option<Seq<u32>>>,
    channels: nat,
    frame: int,
    channel: int,
)
    requires
        0 <= channel < channels,
    ensures
        frame_at(buffers, channels, frame).len() == channels,
        frame_at(buffers, channels, frame)[channel] == (match buffers[channel] {
            Some(buffer) => buffer[frame],
            None => 0u32,
        }),
{
}

} // verus!
