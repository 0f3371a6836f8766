//! Speaker arrangements: which speakers a bus has, one bit each.

#[allow(unused_imports)]
use vstd::arithmetic::power2::*;
use vstd::prelude::*;

verus! {

/// The most channels that a plugin's bus has: an arrangement has no more bits.
pub const VST3_MAX_CHANNELS: usize = 64;

/// How many bits of a number are set.
pub open spec fn bits_set(bits: nat) -> nat
    decreases bits,
{
    if bits == 0 {
        0
    } else {
        bits % 2 + bits_set(bits / 2)
    }
}

/// There are no more bits set than there are.
pub proof fn lemma_bits_set_bound(bits: nat, width: nat)
    requires
        bits < pow2(width),
    ensures
        bits_set(bits) <= width,
    decreases width,
{
    if bits > 0 {
        if width == 0 {
            lemma2_to64();
        } else {
            lemma_pow2_unfold(width);
            lemma_bits_set_bound(bits / 2, (width - 1) as nat);
        }
    }
}

/// How many channels an arrangement has.
pub fn arrangement_channel_count(arrangement: u64) -> (channels: i32)
    ensures
        channels == bits_set(arrangement as nat),
        0 <= channels <= 64,
{
    proof {
        lemma2_to64();
        lemma_bits_set_bound(arrangement as nat, 64);
    }
    let mut rest: u64 = arrangement;
    let mut channels: i32 = 0;
    while rest > 0
        invariant
            0 <= channels,
            channels + bits_set(rest as nat) == bits_set(arrangement as nat),
            bits_set(arrangement as nat) <= 64,
        decreases rest,
    {
        channels = channels + (rest % 2) as i32;
        rest = rest / 2;
    }
    channels
}

/// The arrangement `SpeakerArr::kMono` of the plugin interface.
#[verifier::external_body]
fn mono() -> (arrangement: u64)
    ensures
        arrangement == 0x8_0000,
{
    vst3::Steinberg::Vst::SpeakerArr::kMono
}

/// The arrangement `SpeakerArr::kStereo` of the plugin interface.
#[verifier::external_body]
fn stereo() -> (arrangement: u64)
    ensures
        arrangement == 3,
{
    vst3::Steinberg::Vst::SpeakerArr::kStereo
}

/// The arrangement `SpeakerArr::k30Music` of the plugin interface.
#[verifier::external_body]
fn three_music() -> (arrangement: u64)
    ensures
        arrangement == 0x103,
{
    vst3::Steinberg::Vst::SpeakerArr::k30Music
}

/// The arrangement `SpeakerArr::k40Music` of the plugin interface.
#[verifier::external_body]
fn four_music() -> (arrangement: u64)
    ensures
        arrangement == 0x33,
{
    vst3::Steinberg::Vst::SpeakerArr::k40Music
}

/// The arrangement `SpeakerArr::k50` of the plugin interface.
#[verifier::external_body]
fn five() -> (arrangement: u64)
    ensures
        arrangement == 0x37,
{
    vst3::Steinberg::Vst::SpeakerArr::k50
}

/// The arrangement `SpeakerArr::k51` of the plugin interface.
#[verifier::external_body]
fn five_one() -> (arrangement: u64)
    ensures
        arrangement == 0x3f,
{
    vst3::Steinberg::Vst::SpeakerArr::k51
}

/// The arrangement `SpeakerArr::k70Cine` of the plugin interface.
#[verifier::external_body]
fn seven_cine() -> (arrangement: u64)
    ensures
        arrangement == 0xf7,
{
    vst3::Steinberg::Vst::SpeakerArr::k70Cine
}

/// The arrangement `SpeakerArr::k71Cine` of the plugin interface.
#[verifier::external_body]
fn seven_one_cine() -> (arrangement: u64)
    ensures
        arrangement == 0xff,
{
    vst3::Steinberg::Vst::SpeakerArr::k71Cine
}

/// A channel count brought into the range that a bus can have.
pub open spec fn bus_channels(channels: u8) -> u8 {
    if channels < 1 {
        1
    } else if channels > VST3_MAX_CHANNELS {
        VST3_MAX_CHANNELS as u8
    } else {
        channels
    }
}

/// The arrangement of so many channels: the usual one up to eight, and else as many speakers from
/// the first on.
pub open spec fn arrangement_of(channels: u8) -> nat {
    match bus_channels(channels) {
        1 => 0x8_0000,
        2 => 3,
        3 => 0x103,
        4 => 0x33,
        5 => 0x37,
        6 => 0x3f,
        7 => 0xf7,
        8 => 0xff,
        many => (pow2(many as nat) - 1) as nat,
    }
}

/// The arrangement of so many channels.
pub fn speaker_arrangement_for_channels(channels: u8) -> (arrangement: u64)
    ensures
        arrangement == arrangement_of(channels),
{
    let count: u8 = if channels < 1 {
        1
    } else if channels > 64 {
        64
    } else {
        channels
    };
    match count {
        1 => mono(),
        2 => stereo(),
        3 => three_music(),
        4 => four_music(),
        5 => five(),
        6 => five_one(),
        7 => seven_cine(),
        8 => seven_one_cine(),
        _ => low_bits(count),
    }
}

/// As many bits as given, from the lowest on.
fn low_bits(count: u8) -> (bits: u64)
    requires
        count <= 64,
    ensures
        bits == pow2(count as nat) - 1,
{
    let mut bits: u64 = 0;
    let mut done: u8 = 0;
    proof {
        lemma2_to64();
    }
    while done < count
        invariant
            done <= count <= 64,
            bits == pow2(done as nat) - 1,
        decreases count - done,
    {
        proof {
            lemma_pow2_unfold((done + 1) as nat);
            lemma_pow2_fits((done + 1) as nat);
        }
        bits = bits * 2 + 1;
        done = done + 1;
    }
    bits
}

/// The powers of two up to the 64th are known.
proof fn lemma_pow2_fits(exponent: nat)
    requires
        exponent <= 64,
    ensures
        pow2(exponent) <= 0x1_0000_0000_0000_0000,
{
    lemma2_to64();
    if exponent < 64 {
        vstd::arithmetic::power2::lemma_pow2_strictly_increases(exponent, 64);
    }
}

/// As many bits from the lowest on are as many bits.
proof fn lemma_low_bits_set(count: nat)
    ensures
        bits_set((pow2(count) - 1) as nat) == count,
    decreases count,
{
    if count == 0 {
        lemma2_to64();
    } else {
        lemma_low_bits_set((count - 1) as nat);
        lemma_pow2_unfold(count);
        lemma_pow2_pos((count - 1) as nat);
        let bits = (pow2(count) - 1) as nat;
        assert(bits % 2 == 1 && bits / 2 == pow2((count - 1) as nat) - 1);
    }
}

/// The arrangement of so many channels has so many, from one to what a bus can have.
pub proof fn law_arrangements_have_their_channels(channels: u8)
    ensures
        bits_set(arrangement_of(channels)) == bus_channels(channels),
{
    let count = bus_channels(channels);
    if count > 8 {
        lemma_low_bits_set(count as nat);
    } else {
        reveal_with_fuel(bits_set, 21);
        if count == 1 {
            assert(bits_set(0x8_0000) == 1);
        } else if count == 2 {
            assert(bits_set(3) == 2);
        } else if count == 3 {
            assert(bits_set(0x103) == 3);
        } else if count == 4 {
            assert(bits_set(0x33) == 4);
        } else if count == 5 {
            assert(bits_set(0x37) == 5);
        } else if count == 6 {
            assert(bits_set(0x3f) == 6);
        } else if count == 7 {
            assert(bits_set(0xf7) == 7);
        } else {
            assert(bits_set(0xff) == 8);
        }
    }
}

/// A bus has as many speakers as the stream has channels, from 1 to 64. The usual arrangements of one
/// to eight channels are those that hosts know, and wider buses have the first speakers.
pub proof fn law_buses_have_the_channels_of_the_stream(channels: u8)
    ensures
        1 <= channels <= 64 ==> bits_set(arrangement_of(channels)) == channels,
        channels == 0 ==> bits_set(arrangement_of(channels)) == 1,
        channels > 64 ==> bits_set(arrangement_of(channels)) == 64,
        9 <= channels <= 64 ==> arrangement_of(channels) == pow2(channels as nat) - 1,
        arrangement_of(1) == 0x8_0000,
        arrangement_of(2) == 0b11,
        arrangement_of(3) == 0b1_0000_0011,
        arrangement_of(4) == 0b11_0011,
        arrangement_of(5) == 0b11_0111,
        arrangement_of(6) == 0b11_1111,
        arrangement_of(7) == 0b1111_0111,
        arrangement_of(8) == 0b1111_1111,
{
    lemma_pow2_pos(channels as nat);
    law_arrangements_have_their_channels(channels);
}

/// Each bit that is set counts once, wherever it stands.
pub proof fn law_every_bit_counts_once(bits: nat, place: nat)
    ensures
        bits_set(0) == 0,
        bits_set(bits + bits) == bits_set(bits),
        bits_set(bits + bits + 1) == bits_set(bits) + 1,
        bits_set(pow2(place)) == 1,
    decreases place,
{
    if place > 0 {
        law_every_bit_counts_once(bits, (place - 1) as nat);
        lemma_pow2_unfold(place);
        lemma_pow2_pos((place - 1) as nat);
        let half = pow2((place - 1) as nat);
        assert(pow2(place) == half + half);
        assert(pow2(place) / 2 == half && pow2(place) % 2 == 0);
    } else {
        lemma2_to64();
        reveal_with_fuel(bits_set, 2);
    }
}

} // verus!
