//! What a stream is: its mode, transport and clock, where it goes, and the packet timing that
//! its sample rate asks for.

use vstd::prelude::*;

verus! {

/// The most channels that one stream carries.
pub const MAX_CHANNELS: usize = 96;

/// The RTP payload type of 24-bit linear PCM.
pub const PAYLOAD_TYPE_L24: u8 = 96;

/// The length of an RTP header without contributing sources.
pub const RTP_HEADER_SIZE: usize = 12;

/// The most frames that one packet carries.
pub const MAX_PACKET_FRAMES: usize = 96;

/// The most samples that one packet carries: `MAX_PACKET_FRAMES` frames of `MAX_CHANNELS`.
pub const MAX_PACKET_SAMPLES: usize = 9_216;

/// The length of the largest packet: a header and three bytes for each sample.
pub const MAX_PACKET_SIZE: usize = 27_660;

/// How many packets the receiver's buffer holds at most.
pub const MAX_BUFFER_PACKETS: usize = 128;

/// How many samples the receiver's buffer holds at most: `MAX_BUFFER_PACKETS` largest packets.
pub const MAX_BUFFER_SAMPLES: usize = 1_179_648;

/// How many packets the receiver waits for at least before it starts to play.
pub const STARTUP_BUFFER_PACKETS: usize = 2;

/// How many callbacks' worth of audio the receiver aims to hold.
pub const TARGET_CALLBACKS: usize = 1;

/// How many packets the receiver aims to hold beyond that.
pub const TARGET_SAFETY_PACKETS: usize = 1;

/// How many packets the receiver's buffer may stray from its target.
pub const DRIFT_THRESHOLD_PACKETS: usize = 1;

/// The time between two packets at 48 and 96 kHz, in nanoseconds.
pub const RTP_PACKET_INTERVAL: u64 = 1_000_000;

/// The time between two packets at 44.1 kHz, in nanoseconds: 44 frames.
pub const LEGACY_PACKET_INTERVAL: u64 = 997_732;

/// How long a worker waits at most before it looks around again, in nanoseconds.
pub const WORKER_POLL_INTERVAL: u64 = 20_000_000;

/// Whether a stream is sent or received.
#[derive(Clone, Copy, Debug, PartialEq, Eq, Structural)]
pub enum StreamMode {
    Send,
    Receive,
}

/// Whether a stream goes to one host or to a multicast group.
#[derive(Clone, Copy, Debug, PartialEq, Eq, Structural)]
pub enum StreamTransport {
    Unicast,
    Multicast,
}

/// The clock that a stream is advertised to follow.
#[derive(Clone, Copy, Debug, PartialEq, Eq, Structural)]
pub enum ClockReference {
    Local,
    Ptp,
}

impl StreamMode {
    pub open spec fn code(self) -> u8 {
        match self {
            StreamMode::Send => 0,
            StreamMode::Receive => 1,
        }
    }

    pub open spec fn of_code(value: u32) -> StreamMode {
        if value == 1 {
            StreamMode::Receive
        } else {
            StreamMode::Send
        }
    }

    /// The mode with a given number. Every number but that of `Receive` means `Send`.
    pub fn from_u32(value: u32) -> (mode: Self)
        ensures
            mode == Self::of_code(value),
    {
        match value {
            1 => Self::Receive,
            _ => Self::Send,
        }
    }

    /// The mode's number.
    pub fn as_u8(self) -> (value: u8)
        ensures
            value == self.code(),
    {
        match self {
            Self::Send => 0,
            Self::Receive => 1,
        }
    }
}

impl StreamTransport {
    pub open spec fn code(self) -> u8 {
        match self {
            StreamTransport::Unicast => 0,
            StreamTransport::Multicast => 1,
        }
    }

    pub open spec fn of_code(value: u32) -> StreamTransport {
        if value == 1 {
            StreamTransport::Multicast
        } else {
            StreamTransport::Unicast
        }
    }

    /// The transport with a given number. Every number but that of `Multicast` means `Unicast`.
    pub fn from_u32(value: u32) -> (transport: Self)
        ensures
            transport == Self::of_code(value),
    {
        match value {
            1 => Self::Multicast,
            _ => Self::Unicast,
        }
    }

    /// The transport's number.
    pub fn as_u8(self) -> (value: u8)
        ensures
            value == self.code(),
    {
        match self {
            Self::Unicast => 0,
            Self::Multicast => 1,
        }
    }
}

impl ClockReference {
    pub open spec fn code(self) -> u8 {
        match self {
            ClockReference::Local => 0,
            ClockReference::Ptp => 1,
        }
    }

    pub open spec fn of_code(value: u32) -> ClockReference {
        if value == 1 {
            ClockReference::Ptp
        } else {
            ClockReference::Local
        }
    }

    /// The clock with a given number. Every number but that of `Ptp` means `Local`.
    pub fn from_u32(value: u32) -> (clock: Self)
        ensures
            clock == Self::of_code(value),
    {
        match value {
            1 => Self::Ptp,
            _ => Self::Local,
        }
    }

    /// The clock's number.
    pub fn as_u8(self) -> (value: u8)
        ensures
            value == self.code(),
    {
        match self {
            Self::Local => 0,
            Self::Ptp => 1,
        }
    }

    /// The clock's name in status output.
    pub fn status_name(self) -> (name: &'static str)
        ensures
            name@ == (match self {
                ClockReference::Local => "local"@,
                ClockReference::Ptp => "ptp"@,
            }),
    {
        match self {
            Self::Local => "local",
            Self::Ptp => "ptp",
        }
    }

    /// The session description line for the clock.
    pub open spec fn sdp_line(self) -> Seq<char> {
        match self {
            ClockReference::Local => "a=ts-refclk:local\r\n"@,
            ClockReference::Ptp => "a=ts-refclk:ptp=IEEE1588-2008:traceable\r\n"@,
        }
    }

    /// The session description line that names the clock.
    pub fn sdp_ts_refclk(self) -> (line: &'static str)
        ensures
            line@ == self.sdp_line(),
    {
        match self {
            Self::Local => "a=ts-refclk:local\r\n",
            Self::Ptp => "a=ts-refclk:ptp=IEEE1588-2008:traceable\r\n",
        }
    }
}

/// Numbering is faithful: a mode, transport or clock comes back from its number.
pub proof fn law_codes_round_trip(
    mode: StreamMode,
    transport: StreamTransport,
    clock: ClockReference,
)
    ensures
        StreamMode::of_code(mode.code() as u32) == mode,
        StreamTransport::of_code(transport.code() as u32) == transport,
        ClockReference::of_code(clock.code() as u32) == clock,
{
}

/// An IPv4 address and a UDP port.
#[derive(Clone, Copy, Debug, PartialEq, Eq)]
pub struct Endpoint {
    pub ip: [u8; 4],
    pub port: u16,
}

/// The address 0.0.0.0.
pub open spec fn is_unspecified(ip: [u8; 4]) -> bool {
    ip@ == seq![0u8, 0u8, 0u8, 0u8]
}

/// The address 255.255.255.255.
pub open spec fn is_broadcast(ip: [u8; 4]) -> bool {
    ip@ == seq![255u8, 255u8, 255u8, 255u8]
}

/// An address from 224.0.0.0 to 239.255.255.255.
pub open spec fn is_multicast(ip: [u8; 4]) -> bool {
    224 <= ip@[0] <= 239
}

pub fn ip_is_unspecified(ip: [u8; 4]) -> (yes: bool)
    ensures
        yes == is_unspecified(ip),
{
    let yes: bool = ip[0] == 0 && ip[1] == 0 && ip[2] == 0 && ip[3] == 0;
    proof {
        if yes {
            assert(ip@ =~= seq![0u8, 0u8, 0u8, 0u8]);
        }
    }
    yes
}

pub fn ip_is_broadcast(ip: [u8; 4]) -> (yes: bool)
    ensures
        yes == is_broadcast(ip),
{
    let yes: bool = ip[0] == 255 && ip[1] == 255 && ip[2] == 255 && ip[3] == 255;
    proof {
        if yes {
            assert(ip@ =~= seq![255u8, 255u8, 255u8, 255u8]);
        }
    }
    yes
}

pub fn ip_is_multicast(ip: [u8; 4]) -> (yes: bool)
    ensures
        yes == is_multicast(ip),
{
    224 <= ip[0] && ip[0] <= 239
}

pub fn same_ip(a: [u8; 4], b: [u8; 4]) -> (yes: bool)
    ensures
        yes == (a == b),
{
    let yes: bool = a[0] == b[0] && a[1] == b[1] && a[2] == b[2] && a[3] == b[3];
    proof {
        if yes {
            assert(a@ =~= b@);
            assert(a =~= b);
        }
    }
    yes
}

/// What the user sets of a stream.
#[derive(Clone, Copy, Debug, PartialEq, Eq)]
pub struct StreamParameters {
    pub enabled: bool,
    pub mode: StreamMode,
    pub transport: StreamTransport,
    pub channels: u8,
    pub port: u16,
    pub ip: [u8; 4],
    pub clock_reference: ClockReference,
    pub ptp_domain: u8,
}

impl StreamParameters {
    /// Where a sender sends to.
    pub fn destination(self) -> (endpoint: Endpoint)
        ensures
            endpoint == (Endpoint { ip: self.ip, port: self.port }),
    {
        Endpoint { ip: self.ip, port: self.port }
    }

    /// Where a receiver listens: its port, on every interface.
    pub fn listen_addr(self) -> (endpoint: Endpoint)
        ensures
            is_unspecified(endpoint.ip),
            endpoint.port == self.port,
    {
        let ip: [u8; 4] = [0, 0, 0, 0];
        proof {
            assert(ip@ =~= seq![0u8, 0u8, 0u8, 0u8]);
        }
        Endpoint { ip, port: self.port }
    }

    /// Whether the address can be sent to.
    pub open spec fn has_destination(self) -> bool {
        match self.transport {
            StreamTransport::Unicast => !is_unspecified(self.ip) && !is_broadcast(self.ip),
            StreamTransport::Multicast => is_multicast(self.ip),
        }
    }

    /// Whether the address and port can be listened on.
    pub open spec fn has_listener(self) -> bool {
        self.port != 0 && (self.transport == StreamTransport::Multicast ==> is_multicast(self.ip))
    }

    /// Whether packets from an address belong to the stream: any source of a multicast stream
    /// does; of a unicast stream the expected one does, or any where none is set.
    pub open spec fn takes_from(self, ip: [u8; 4]) -> bool {
        self.transport == StreamTransport::Multicast || is_unspecified(self.ip) || ip == self.ip
    }

    pub fn sane_destination(self) -> (yes: bool)
        ensures
            yes == self.has_destination(),
    {
        match self.transport {
            StreamTransport::Unicast => !ip_is_unspecified(self.ip) && !ip_is_broadcast(self.ip),
            StreamTransport::Multicast => ip_is_multicast(self.ip),
        }
    }

    pub fn sane_listener(self) -> (yes: bool)
        ensures
            yes == self.has_listener(),
    {
        if self.port == 0 {
            return false;
        }
        if self.transport == StreamTransport::Multicast {
            ip_is_multicast(self.ip)
        } else {
            true
        }
    }

    pub fn accepts_source(self, source: Endpoint) -> (yes: bool)
        ensures
            yes == self.takes_from(source.ip),
    {
        if self.transport == StreamTransport::Multicast {
            return true;
        }
        ip_is_unspecified(self.ip) || same_ip(source.ip, self.ip)
    }

    pub open spec fn endpoint_name(self) -> Seq<char> {
        match (self.mode, self.transport) {
            (StreamMode::Send, StreamTransport::Unicast) => "destination"@,
            (StreamMode::Send, StreamTransport::Multicast) => "group"@,
            (StreamMode::Receive, StreamTransport::Unicast) => "expected_source"@,
            (StreamMode::Receive, StreamTransport::Multicast) => "group"@,
        }
    }

    /// What the address stands for in status output.
    pub fn endpoint_label(self) -> (label: &'static str)
        ensures
            label@ == self.endpoint_name(),
    {
        match (self.mode, self.transport) {
            (StreamMode::Send, StreamTransport::Unicast) => "destination",
            (StreamMode::Send, StreamTransport::Multicast) => "group",
            (StreamMode::Receive, StreamTransport::Unicast) => "expected_source",
            (StreamMode::Receive, StreamTransport::Multicast) => "group",
        }
    }

    /// The group to join, where the address is one.
    pub fn group_addr(self) -> (group: Option<[u8; 4]>)
        ensures
            group == (if is_multicast(self.ip) {
                Some(self.ip)
            } else {
                None
            }),
    {
        if ip_is_multicast(self.ip) {
            Some(self.ip)
        } else {
            None
        }
    }

    /// Whether two sets of parameters agree in every field.
    pub fn same(self, other: Self) -> (yes: bool)
        ensures
            yes == (self == other),
    {
        self.enabled == other.enabled && self.mode == other.mode && self.transport
            == other.transport && self.channels == other.channels && self.port == other.port
            && same_ip(self.ip, other.ip) && self.clock_reference == other.clock_reference
            && self.ptp_domain == other.ptp_domain
    }
}

/// A multicast stream takes packets from every source.
pub proof fn law_multicast_accepts_any_source(params: StreamParameters, ip: [u8; 4])
    requires
        params.transport == StreamTransport::Multicast,
    ensures
        params.takes_from(ip),
{
}

/// A unicast receiver whose expected source is 0.0.0.0 takes packets from every source.
pub proof fn law_unspecified_source_accepts_any(params: StreamParameters, ip: [u8; 4])
    requires
        is_unspecified(params.ip),
    ensures
        params.takes_from(ip),
{
}

/// A unicast receiver with an expected source takes packets from that source alone.
pub proof fn law_expected_source_is_exclusive(params: StreamParameters, ip: [u8; 4])
    requires
        params.transport == StreamTransport::Unicast,
        !is_unspecified(params.ip),
    ensures
        params.takes_from(ip) <==> ip == params.ip,
{
}

/// The sample rates that streams run at.
#[derive(Clone, Copy, Debug, PartialEq, Eq, Structural)]
pub enum StreamLevel {
    A48k,
    Legacy44k1,
    AX96k,
}

impl StreamLevel {
    pub open spec fn rate(self) -> u32 {
        match self {
            StreamLevel::A48k => 48_000,
            StreamLevel::Legacy44k1 => 44_100,
            StreamLevel::AX96k => 96_000,
        }
    }

    /// Frames in a packet: about a millisecond of audio.
    pub open spec fn frames(self) -> nat {
        match self {
            StreamLevel::A48k => 48,
            StreamLevel::Legacy44k1 => 44,
            StreamLevel::AX96k => 96,
        }
    }

    pub open spec fn interval(self) -> u64 {
        match self {
            StreamLevel::A48k => RTP_PACKET_INTERVAL,
            StreamLevel::Legacy44k1 => LEGACY_PACKET_INTERVAL,
            StreamLevel::AX96k => RTP_PACKET_INTERVAL,
        }
    }

    pub open spec fn conformance(self) -> Seq<char> {
        match self {
            StreamLevel::A48k => "Level A"@,
            StreamLevel::Legacy44k1 => "Non-standard 44.1 kHz"@,
            StreamLevel::AX96k => "Level AX"@,
        }
    }

    pub fn sample_rate_hz(self) -> (rate: u32)
        ensures
            rate == self.rate(),
    {
        match self {
            Self::A48k => 48_000,
            Self::Legacy44k1 => 44_100,
            Self::AX96k => 96_000,
        }
    }

    pub fn packet_frames(self) -> (frames: usize)
        ensures
            frames == self.frames(),
            1 <= frames <= MAX_PACKET_FRAMES,
    {
        match self {
            Self::A48k => 48,
            Self::Legacy44k1 => 44,
            Self::AX96k => 96,
        }
    }

    /// The time between two packets in nanoseconds.
    pub fn packet_interval(self) -> (nanos: u64)
        ensures
            nanos == self.interval(),
    {
        match self {
            Self::A48k | Self::AX96k => RTP_PACKET_INTERVAL,
            Self::Legacy44k1 => LEGACY_PACKET_INTERVAL,
        }
    }

    /// The packet time that is advertised, in milliseconds.
    pub fn ptime_ms(self) -> (ms: u32)
        ensures
            ms == 1,
    {
        match self {
            Self::A48k | Self::Legacy44k1 | Self::AX96k => 1,
        }
    }

    pub fn conformance_label(self) -> (label: &'static str)
        ensures
            label@ == self.conformance(),
    {
        match self {
            Self::A48k => "Level A",
            Self::Legacy44k1 => "Non-standard 44.1 kHz",
            Self::AX96k => "Level AX",
        }
    }
}

/// The packet interval is the playing time of a packet's frames, in whole nanoseconds.
pub proof fn law_packet_interval_is_packet_duration(level: StreamLevel)
    ensures
        level.interval() == level.frames() * 1_000_000_000 / level.rate() as nat,
{
    match level {
        StreamLevel::A48k => {},
        StreamLevel::Legacy44k1 => {},
        StreamLevel::AX96k => {},
    }
}

/// The level of a sample rate, for a channel count that streams can have.
pub open spec fn level_of(sample_rate_hz: u32, channels: u8) -> Option<StreamLevel> {
    if !(1 <= channels <= MAX_CHANNELS) {
        None
    } else if sample_rate_hz == 48_000 {
        Some(StreamLevel::A48k)
    } else if sample_rate_hz == 44_100 {
        Some(StreamLevel::Legacy44k1)
    } else if sample_rate_hz == 96_000 {
        Some(StreamLevel::AX96k)
    } else {
        None
    }
}

pub fn stream_level(sample_rate_hz: u32, channels: u8) -> (level: Option<StreamLevel>)
    ensures
        level == level_of(sample_rate_hz, channels),
{
    match (sample_rate_hz, channels) {
        (48_000, 1..=96) => Some(StreamLevel::A48k),
        (44_100, 1..=96) => Some(StreamLevel::Legacy44k1),
        (96_000, 1..=96) => Some(StreamLevel::AX96k),
        _ => None,
    }
}

/// A level runs at the rate that it was chosen for.
pub proof fn law_level_keeps_the_rate(sample_rate_hz: u32, channels: u8)
    ensures
        level_of(sample_rate_hz, channels) matches Some(level) ==> level.rate() == sample_rate_hz,
{
}

/// A stream as it runs: its parameters and the level of its sample rate.
#[derive(Clone, Copy, Debug, PartialEq, Eq)]
pub struct ActiveStream {
    pub params: StreamParameters,
    pub level: StreamLevel,
}

impl ActiveStream {
    /// Whether the channel count is one that a level can have.
    pub open spec fn wf(self) -> bool {
        1 <= self.params.channels <= MAX_CHANNELS
    }

    /// Samples in a packet.
    pub open spec fn packet_samples(self) -> nat {
        self.level.frames() * self.params.channels as nat
    }

    pub fn same(self, other: Self) -> (yes: bool)
        ensures
            yes == (self == other),
    {
        self.params.same(other.params) && self.level == other.level
    }
}

/// The receiver's target depth in packets: what a callback takes, rounded up, and one more, but
/// never fewer than it starts with.
pub open spec fn target_packets(level: StreamLevel, callback_frames: nat) -> nat {
    let callback_packets = (callback_frames + level.frames() - 1) as nat / level.frames();
    if callback_packets + 1 < 2 {
        2
    } else {
        callback_packets + 1
    }
}

/// The receiver's target depth in samples.
pub open spec fn target_samples(level: StreamLevel, channels: nat, callback_frames: nat) -> nat {
    target_packets(level, callback_frames) * (level.frames() * channels)
}

/// How many samples a receiver aims to hold.
pub fn target_buffer_samples(level: StreamLevel, channels: usize, callback_frames: usize) -> (samples:
    usize)
    requires
        target_samples(level, channels as nat, callback_frames as nat) <= usize::MAX,
    ensures
        samples == target_samples(level, channels as nat, callback_frames as nat),
{
    let packet_frames: usize = level.packet_frames();
    proof {
        let packets = target_packets(level, callback_frames as nat);
        assert(packets * (packet_frames * channels) >= packet_frames * channels)
            by (nonlinear_arith)
            requires
                packets >= 1,
                packet_frames * channels >= 0,
        ;
    }
    let packet_samples: usize = packet_frames * channels;
    let remainder: usize = callback_frames % packet_frames;
    let whole: usize = callback_frames / packet_frames;
    let callback_packets: usize = if remainder == 0 {
        whole
    } else {
        whole + 1
    };
    proof {
        let pf = packet_frames as int;
        assert((callback_frames + pf - 1) / pf == callback_packets) by {
            match level {
                StreamLevel::A48k => {},
                StreamLevel::Legacy44k1 => {},
                StreamLevel::AX96k => {},
            }
        }
    }
    let wanted: usize = callback_packets * TARGET_CALLBACKS + TARGET_SAFETY_PACKETS;
    let target_packets: usize = if wanted < STARTUP_BUFFER_PACKETS {
        STARTUP_BUFFER_PACKETS
    } else {
        wanted
    };
    target_packets * packet_samples
}

/// The target holds more than the callback takes, and at least the startup depth.
pub proof fn law_target_covers_a_callback(level: StreamLevel, channels: nat, callback_frames: nat)
    ensures
        target_samples(level, channels, callback_frames) >= (callback_frames + level.frames())
            * channels,
        target_samples(level, channels, callback_frames) >= STARTUP_BUFFER_PACKETS * (level.frames()
            * channels),
{
    let pf = level.frames();
    let packets = target_packets(level, callback_frames);
    assert(packets * pf >= callback_frames + pf) by {
        match level {
            StreamLevel::A48k => {},
            StreamLevel::Legacy44k1 => {},
            StreamLevel::AX96k => {},
        }
    }
    assert(packets * (pf * channels) == (packets * pf) * channels) by (nonlinear_arith);
    assert((packets * pf) * channels >= (callback_frames + pf) * channels) by (nonlinear_arith)
        requires
            packets * pf >= callback_frames + pf,
    ;
    assert(packets * (pf * channels) >= 2 * (pf * channels)) by (nonlinear_arith)
        requires
            packets >= 2,
            pf * channels >= 0,
    ;
}

/// Whether the buffer is so low that a callback should play one frame twice: more than a packet
/// below target, with enough frames for all but one.
pub open spec fn should_stretch(
    queued: int,
    target: int,
    packet_samples: int,
    available: int,
    requested: int,
) -> bool {
    queued + packet_samples < target && available + 1 >= requested
}

/// Whether the buffer is so high that a callback should skip a frame: more than a packet above
/// target, with a frame to spare.
pub open spec fn should_compress(
    queued: int,
    target: int,
    packet_samples: int,
    available: int,
    requested: int,
) -> bool {
    queued > target + packet_samples && available > requested
}

/// By how many frames a callback should take more than it plays.
pub open spec fn playout_adjustment(
    queued: int,
    target: int,
    packet_samples: int,
    available: int,
    requested: int,
) -> int {
    if should_stretch(queued, target, packet_samples, available, requested) {
        -1
    } else if should_compress(queued, target, packet_samples, available, requested) {
        1
    } else {
        0
    }
}

pub fn playout_adjustment_frames(
    queued_samples: usize,
    target_buffer_samples: usize,
    packet_samples: usize,
    available_frames: usize,
    requested_frames: usize,
) -> (adjustment: i32)
    ensures
        adjustment == playout_adjustment(
            queued_samples as int,
            target_buffer_samples as int,
            packet_samples as int,
            available_frames as int,
            requested_frames as int,
        ),
{
    let low: bool = packet_samples < target_buffer_samples && queued_samples < target_buffer_samples
        - packet_samples;
    let nearly_enough: bool = requested_frames == 0 || available_frames >= requested_frames - 1;
    let high: bool = queued_samples > target_buffer_samples && queued_samples
        - target_buffer_samples > packet_samples;
    if low && nearly_enough {
        -1
    } else if high && available_frames > requested_frames {
        1
    } else {
        0
    }
}

/// A buffer within a packet of its target is left alone.
pub proof fn law_no_adjustment_near_target(
    queued: int,
    target: int,
    packet_samples: int,
    available: int,
    requested: int,
)
    requires
        target - packet_samples <= queued <= target + packet_samples,
    ensures
        playout_adjustment(queued, target, packet_samples, available, requested) == 0,
{
}

/// How long a worker waits for a deadline: until then, but no longer than the poll interval.
pub fn bounded_wait_until(deadline: u64, now: u64) -> (nanos: u64)
    ensures
        nanos == (if deadline <= now {
            0
        } else if deadline - now < WORKER_POLL_INTERVAL {
            deadline - now
        } else {
            WORKER_POLL_INTERVAL as int
        }),
{
    let wait: u64 = deadline.saturating_sub(now);
    if wait < WORKER_POLL_INTERVAL {
        wait
    } else {
        WORKER_POLL_INTERVAL
    }
}

/// The numbers are those that saved states and hosts know: one stands for receiving, multicast and
/// PTP, and every other number for sending, unicast and the local clock.
pub proof fn law_codes_are_one_or_not(
    mode: StreamMode,
    transport: StreamTransport,
    clock: ClockReference,
    value: u32,
)
    ensures
        mode.code() <= 1 && transport.code() <= 1 && clock.code() <= 1,
        mode.code() == 1 <==> mode == StreamMode::Receive,
        transport.code() == 1 <==> transport == StreamTransport::Multicast,
        clock.code() == 1 <==> clock == ClockReference::Ptp,
        StreamMode::of_code(value) == StreamMode::Receive <==> value == 1,
        StreamTransport::of_code(value) == StreamTransport::Multicast <==> value == 1,
        ClockReference::of_code(value) == ClockReference::Ptp <==> value == 1,
{
}

/// A unicast sender has a destination for every address but 0.0.0.0 and 255.255.255.255. A
/// multicast sender has one for the addresses from 224.0.0.0 to 239.255.255.255 alone. Nothing else
/// that is set of the stream makes a difference.
pub proof fn law_every_host_and_group_is_a_destination(params: StreamParameters)
    ensures
        params.transport == StreamTransport::Unicast ==> (params.has_destination() <==> !(params.ip@[0]
            == 0 && params.ip@[1] == 0 && params.ip@[2] == 0 && params.ip@[3] == 0) && !(
        params.ip@[0] == 255 && params.ip@[1] == 255 && params.ip@[2] == 255 && params.ip@[3]
            == 255)),
        params.transport == StreamTransport::Multicast ==> (params.has_destination() <==> 224
            <= params.ip@[0] <= 239),
{
    lemma_octets(params.ip);
}

/// A unicast receiver can listen wherever it has a port. A multicast receiver needs a group from
/// 224.0.0.0 to 239.255.255.255 as well.
pub proof fn law_every_port_and_group_can_be_listened_on(params: StreamParameters)
    ensures
        params.transport == StreamTransport::Unicast ==> (params.has_listener() <==> params.port
            > 0),
        params.transport == StreamTransport::Multicast ==> (params.has_listener() <==> params.port
            > 0 && 224 <= params.ip@[0] <= 239),
{
}

/// A unicast receiver takes packets from the address that is set alone, octet by octet, or from
/// every address where 0.0.0.0 is set. A multicast receiver takes them from every address.
pub proof fn law_sources_are_told_apart_by_their_octets(params: StreamParameters, ip: [u8; 4])
    ensures
        params.takes_from(ip) <==> {
            ||| params.transport == StreamTransport::Multicast
            ||| params.ip@[0] == 0 && params.ip@[1] == 0 && params.ip@[2] == 0 && params.ip@[3] == 0
            ||| ip@[0] == params.ip@[0] && ip@[1] == params.ip@[1] && ip@[2] == params.ip@[2]
                && ip@[3] == params.ip@[3]
        },
{
    lemma_octets(params.ip);
    if ip@[0] == params.ip@[0] && ip@[1] == params.ip@[1] && ip@[2] == params.ip@[2] && ip@[3]
        == params.ip@[3] {
        assert(ip@ =~= params.ip@);
        assert(ip =~= params.ip);
    }
}

/// An address is its octets.
proof fn lemma_octets(ip: [u8; 4])
    ensures
        is_unspecified(ip) <==> ip@[0] == 0 && ip@[1] == 0 && ip@[2] == 0 && ip@[3] == 0,
        is_broadcast(ip) <==> ip@[0] == 255 && ip@[1] == 255 && ip@[2] == 255 && ip@[3] == 255,
{
    if ip@[0] == 0 && ip@[1] == 0 && ip@[2] == 0 && ip@[3] == 0 {
        assert(ip@ =~= seq![0u8, 0u8, 0u8, 0u8]);
    }
    if ip@[0] == 255 && ip@[1] == 255 && ip@[2] == 255 && ip@[3] == 255 {
        assert(ip@ =~= seq![255u8, 255u8, 255u8, 255u8]);
    }
}

/// There are streams at 44.1, 48 and 96 kHz, of 1 to 96 channels each, and no others. A packet
/// holds the whole frames of a millisecond.
pub proof fn law_rates_and_channels_of_streams(sample_rate_hz: u32, channels: u8)
    ensures
        level_of(sample_rate_hz, channels) is Some <==> (sample_rate_hz == 44_100 || sample_rate_hz
            == 48_000 || sample_rate_hz == 96_000) && 1 <= channels <= 96,
        level_of(sample_rate_hz, channels) matches Some(level) ==> level.rate() == sample_rate_hz
            && level.frames() == sample_rate_hz / 1000,
{
}

/// The target is the least number of whole packets, of at least two, that holds a callback and a
/// packet besides.
pub proof fn law_target_is_the_least_that_covers_a_callback(
    level: StreamLevel,
    channels: nat,
    callback_frames: nat,
    packets: nat,
)
    requires
        channels >= 1,
    ensures
        packets >= 2 && packets * level.frames() >= callback_frames + level.frames() <==> packets
            * (level.frames() * channels) >= target_samples(level, channels, callback_frames),
        target_samples(level, channels, callback_frames) % (level.frames() * channels) == 0,
{
    let pf = level.frames();
    let least = target_packets(level, callback_frames);
    let unit = pf * channels;
    assert(least >= 2 && least * pf >= callback_frames + pf) by {
        match level {
            StreamLevel::A48k => {},
            StreamLevel::Legacy44k1 => {},
            StreamLevel::AX96k => {},
        }
    }
    assert(least == 2 || (least - 1) * pf < callback_frames + pf) by {
        match level {
            StreamLevel::A48k => {},
            StreamLevel::Legacy44k1 => {},
            StreamLevel::AX96k => {},
        }
    }
    assert(unit >= 1) by (nonlinear_arith)
        requires
            unit == pf * channels,
            pf >= 1,
            channels >= 1,
    ;
    assert(packets * unit >= least * unit <==> packets >= least) by (nonlinear_arith)
        requires
            unit >= 1,
    ;
    if packets >= least {
        assert(packets * pf >= least * pf) by (nonlinear_arith)
            requires
                packets >= least,
        ;
    } else {
        assert(packets * pf <= (least - 1) * pf) by (nonlinear_arith)
            requires
                packets <= least - 1,
        ;
    }
    vstd::arithmetic::div_mod::lemma_mod_multiples_basic(least as int, unit as int);
}

/// A buffer that is more than a packet above its target is brought down by a frame, however far
/// above it is, where there is a frame more than the callback asks for. One that is more than a
/// packet below is built up by a frame, however far below it is, where there are all but one of the
/// frames. Nothing else is adjusted.
pub proof fn law_drift_is_taken_up_however_large(
    queued: int,
    target: int,
    packet_samples: int,
    available: int,
    requested: int,
)
    requires
        packet_samples >= 0,
    ensures
        playout_adjustment(queued, target, packet_samples, available, requested) > 0 <==> queued
            - target > packet_samples && available > requested,
        playout_adjustment(queued, target, packet_samples, available, requested) < 0 <==> target
            - queued > packet_samples && available >= requested - 1,
        -1 <= playout_adjustment(queued, target, packet_samples, available, requested) <= 1,
{
}

} // verus!
