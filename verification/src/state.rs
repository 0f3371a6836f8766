//! The saved form of a stream's parameters.

use crate::stream::{ClockReference, StreamMode, StreamParameters, StreamTransport, MAX_CHANNELS};
use vstd::prelude::*;
use vstd::slice::slice_subrange;

verus! {

/// The length of a saved state.
pub const STATE_SIZE: usize = 17;

/// The length of a saved state of the first two versions.
pub const LEGACY_STATE_SIZE: usize = 14;

/// The version that is written.
pub const STATE_VERSION: u8 = 4;

/// The largest clock domain.
pub const MAX_PTP_DOMAIN: u8 = 127;

/// A channel count brought into the range that a stream can have.
pub open spec fn channels_in_range(channels: u8) -> u8 {
    if channels < 1 {
        1
    } else if channels > MAX_CHANNELS {
        MAX_CHANNELS as u8
    } else {
        channels
    }
}

/// A clock domain brought into range.
pub open spec fn domain_in_range(domain: u8) -> u8 {
    if domain > MAX_PTP_DOMAIN {
        MAX_PTP_DOMAIN
    } else {
        domain
    }
}

/// A port brought into range.
pub open spec fn port_in_range(port: u16) -> u16 {
    if port < 1 {
        1
    } else {
        port
    }
}

/// Parameters whose channel count, port and clock domain are in range.
pub open spec fn is_normal(params: StreamParameters) -> bool {
    normalized(params) == params
}

/// Parameters brought into range.
pub open spec fn normalized(params: StreamParameters) -> StreamParameters {
    StreamParameters {
        channels: channels_in_range(params.channels),
        port: port_in_range(params.port),
        ptp_domain: domain_in_range(params.ptp_domain),
        ..params
    }
}

/// The saved form: the letters RST3, the version, and the parameters, the port's low byte first.
pub open spec fn saved(params: StreamParameters) -> Seq<u8> {
    seq![
        0x52,
        0x53,
        0x54,
        0x33,
        STATE_VERSION,
        if params.enabled {
            1
        } else {
            0
        },
        params.mode.code(),
        params.transport.code(),
        params.channels,
        (params.port % 0x100) as u8,
        (params.port / 0x100) as u8,
        params.ip@[0],
        params.ip@[1],
        params.ip@[2],
        params.ip@[3],
        params.clock_reference.code(),
        domain_in_range(params.ptp_domain),
    ]
}

/// Saves parameters.
pub fn encode_state(state: StreamParameters) -> (bytes: [u8; STATE_SIZE])
    ensures
        bytes@ == saved(state),
{
    let mut out: [u8; STATE_SIZE] = [0u8; STATE_SIZE];
    out[0] = 0x52;
    out[1] = 0x53;
    out[2] = 0x54;
    out[3] = 0x33;
    out[4] = STATE_VERSION;
    out[5] = if state.enabled {
        1
    } else {
        0
    };
    out[6] = state.mode.as_u8();
    out[7] = state.transport.as_u8();
    out[8] = state.channels;
    out[9] = (state.port % 0x100) as u8;
    out[10] = (state.port / 0x100) as u8;
    out[11] = state.ip[0];
    out[12] = state.ip[1];
    out[13] = state.ip[2];
    out[14] = state.ip[3];
    out[15] = state.clock_reference.as_u8();
    out[16] = if state.ptp_domain > MAX_PTP_DOMAIN {
        MAX_PTP_DOMAIN
    } else {
        state.ptp_domain
    };
    proof {
        assert(out@ =~= saved(state));
    }
    out
}

/// How many bytes a saved state of a version has at least, for the versions that are known.
pub open spec fn saved_size(version: u8) -> Option<nat> {
    if version == 1 || version == 2 {
        Some(LEGACY_STATE_SIZE as nat)
    } else if version == 3 {
        Some(15)
    } else if version == STATE_VERSION {
        Some(STATE_SIZE as nat)
    } else {
        None
    }
}

/// Whether bytes begin with a saved state.
pub open spec fn holds_state(bytes: Seq<u8>) -> bool {
    &&& bytes.len() >= LEGACY_STATE_SIZE
    &&& bytes[0] == 0x52 && bytes[1] == 0x53 && bytes[2] == 0x54 && bytes[3] == 0x33
    &&& saved_size(bytes[4]) matches Some(size) && bytes.len() >= size
}

/// Where the channel count stands in a saved state of a version: behind the mode, which the first
/// version has not, and the transport, which the first two have not. The port and the address
/// follow.
pub open spec fn channels_index(version: u8) -> int {
    if version == 1 {
        6
    } else if version == 2 {
        7
    } else {
        8
    }
}

/// The parameters in a saved state. What a version does not hold is as it was before it could be
/// set: a sender, to one host, by the local clock.
pub open spec fn restored(bytes: Seq<u8>) -> StreamParameters {
    let version = bytes[4];
    let at = channels_index(version);
    StreamParameters {
        enabled: bytes[5] != 0,
        mode: if version == 1 {
            StreamMode::Send
        } else {
            StreamMode::of_code(bytes[6] as u32)
        },
        transport: if version <= 2 {
            StreamTransport::Unicast
        } else {
            StreamTransport::of_code(bytes[7] as u32)
        },
        channels: channels_in_range(bytes[at]),
        port: port_in_range((bytes[at + 1] + bytes[at + 2] * 0x100) as u16),
        ip: [bytes[at + 3], bytes[at + 4], bytes[at + 5], bytes[at + 6]],
        clock_reference: if version == STATE_VERSION {
            ClockReference::of_code(bytes[15] as u32)
        } else {
            ClockReference::Local
        },
        ptp_domain: if version == STATE_VERSION {
            domain_in_range(bytes[16])
        } else {
            0
        },
    }
}

/// Restores parameters. Gives none where the bytes hold no state of a known version.
pub fn decode_state(bytes: &[u8]) -> (state: Option<StreamParameters>)
    ensures
        state is Some <==> holds_state(bytes@),
        state matches Some(params) ==> params == restored(bytes@) && is_normal(params),
{
    if bytes.len() < LEGACY_STATE_SIZE || bytes[0] != 0x52 || bytes[1] != 0x53 || bytes[2] != 0x54
        || bytes[3] != 0x33 {
        return None;
    }
    let version: u8 = bytes[4];
    let at: usize = match version {
        1 => 6,
        2 => 7,
        3 => {
            if bytes.len() < 15 {
                return None;
            }
            8
        },
        4 => {
            if bytes.len() < STATE_SIZE {
                return None;
            }
            8
        },
        _ => {
            return None;
        },
    };
    let mode = if version == 1 {
        StreamMode::Send
    } else {
        StreamMode::from_u32(bytes[6] as u32)
    };
    let transport = if version <= 2 {
        StreamTransport::Unicast
    } else {
        StreamTransport::from_u32(bytes[7] as u32)
    };
    let channels: u8 = if bytes[at] < 1 {
        1
    } else if bytes[at] > MAX_CHANNELS as u8 {
        MAX_CHANNELS as u8
    } else {
        bytes[at]
    };
    let written: u16 = bytes[at + 1] as u16 + bytes[at + 2] as u16 * 0x100;
    let port: u16 = if written < 1 {
        1
    } else {
        written
    };
    let ip: [u8; 4] = [bytes[at + 3], bytes[at + 4], bytes[at + 5], bytes[at + 6]];
    let clock_reference = if version == STATE_VERSION {
        ClockReference::from_u32(bytes[15] as u32)
    } else {
        ClockReference::Local
    };
    let ptp_domain: u8 = if version != STATE_VERSION {
        0
    } else if bytes[16] > MAX_PTP_DOMAIN {
        MAX_PTP_DOMAIN
    } else {
        bytes[16]
    };
    let params = StreamParameters {
        enabled: bytes[5] != 0,
        mode,
        transport,
        channels,
        port,
        ip,
        clock_reference,
        ptp_domain,
    };
    Some(params)
}

/// Restores parameters from what a host has read, which has to be the whole of a current or of a
/// legacy state.
pub fn decode_read_state(bytes: &[u8; STATE_SIZE], bytes_read: i32) -> (state: Option<
    StreamParameters,
>)
    ensures
        state == (if (bytes_read == STATE_SIZE || bytes_read == LEGACY_STATE_SIZE) && holds_state(
            bytes@.take(bytes_read as int),
        ) {
            Some(restored(bytes@.take(bytes_read as int)))
        } else {
            None
        }),
{
    if bytes_read == STATE_SIZE as i32 || bytes_read == LEGACY_STATE_SIZE as i32 {
        decode_state(slice_subrange(bytes.as_slice(), 0, bytes_read as usize))
    } else {
        None
    }
}

/// What was saved is restored: all of it, where it is in range, and else brought into range.
pub proof fn law_state_round_trip(params: StreamParameters)
    ensures
        holds_state(saved(params)),
        restored(saved(params)) == normalized(params),
{
    let bytes = saved(params);
    crate::stream::law_codes_round_trip(params.mode, params.transport, params.clock_reference);
    assert(bytes[9] + bytes[10] * 0x100 == params.port);
    assert(restored(bytes).ip@ =~= params.ip@);
    assert(restored(bytes).ip =~= params.ip);
}

/// What is restored, of any version, is restored the same once it was saved again.
pub proof fn law_restored_state_is_stable(bytes: Seq<u8>)
    requires
        holds_state(bytes),
    ensures
        is_normal(restored(bytes)),
        restored(saved(restored(bytes))) == restored(bytes),
{
    law_state_round_trip(restored(bytes));
}

/// Different parameters are saved differently, where they are in range.
pub proof fn law_saved_states_differ(a: StreamParameters, b: StreamParameters)
    requires
        is_normal(a),
        is_normal(b),
        saved(a) == saved(b),
    ensures
        a == b,
{
    law_state_round_trip(a);
    law_state_round_trip(b);
}

/// How a state is saved, so that any program that knows the form can read it: RST3, 4, whether it is
/// on, one for receiving, one for multicast, the channels, the port with its low byte first, the four
/// octets, one for PTP, and the clock domain.
pub proof fn law_saved_states_have_one_form(params: StreamParameters)
    ensures
        ({
            let bytes = saved(params);
            &&& bytes.len() == 17
            &&& bytes.take(5) == seq!['R' as u8, 'S' as u8, 'T' as u8, '3' as u8, 4u8]
            &&& bytes[5] == 1 <==> params.enabled
            &&& bytes[6] == 1 <==> params.mode == StreamMode::Receive
            &&& bytes[7] == 1 <==> params.transport == StreamTransport::Multicast
            &&& bytes[8] == params.channels
            &&& bytes[9] + 256 * bytes[10] == params.port
            &&& bytes.subrange(11, 15) == params.ip@
            &&& bytes[15] == 1 <==> params.clock_reference == ClockReference::Ptp
            &&& bytes[16] == params.ptp_domain || (params.ptp_domain > 127 && bytes[16] == 127)
            &&& bytes[5] <= 1 && bytes[6] <= 1 && bytes[7] <= 1 && bytes[15] <= 1
        }),
{
    let bytes = saved(params);
    assert(bytes.take(5) =~= seq!['R' as u8, 'S' as u8, 'T' as u8, '3' as u8, 4u8]);
    assert(bytes.subrange(11, 15) =~= params.ip@);
}

/// Which bytes hold a state: RST3, then a version from 1 to 4, and as many bytes as that version has.
pub proof fn law_states_of_four_versions_are_known(bytes: Seq<u8>)
    ensures
        holds_state(bytes) <==> {
            &&& bytes.len() >= 14
            &&& bytes[0] == 'R' as u8 && bytes[1] == 'S' as u8 && bytes[2] == 'T' as u8 && bytes[3]
                == '3' as u8
            &&& 1 <= bytes[4] <= 4
            &&& bytes[4] == 3 ==> bytes.len() >= 15
            &&& bytes[4] == 4 ==> bytes.len() >= 17
        },
{
}

/// What is restored of each version. Each holds whether the stream is on, its channels, port and
/// address. From the second on there is the mode, from the third on the transport, and in the fourth
/// the clock. What a version has not is a sender, unicast and the local clock. A channel count is held
/// between 1 and 96, a port above 0 and a clock domain at 127.
pub proof fn law_every_version_is_restored(bytes: Seq<u8>)
    requires
        holds_state(bytes),
    ensures
        ({
            let params = restored(bytes);
            let version = bytes[4];
            let at: int = if version == 1 {
                6
            } else if version == 2 {
                7
            } else {
                8
            };
            let port = bytes[at + 1] + 256 * bytes[at + 2];
            &&& params.enabled <==> bytes[5] > 0
            &&& params.mode == StreamMode::Receive <==> version >= 2 && bytes[6] == 1
            &&& params.transport == StreamTransport::Multicast <==> version >= 3 && bytes[7] == 1
            &&& 1 <= bytes[at] <= 96 ==> params.channels == bytes[at]
            &&& bytes[at] == 0 ==> params.channels == 1
            &&& bytes[at] > 96 ==> params.channels == 96
            &&& port > 0 ==> params.port == port
            &&& port == 0 ==> params.port == 1
            &&& params.ip@ == bytes.subrange(at + 3, at + 7)
            &&& params.clock_reference == ClockReference::Ptp <==> version == 4 && bytes[15] == 1
            &&& version == 4 && bytes[16] <= 127 ==> params.ptp_domain == bytes[16]
            &&& version == 4 && bytes[16] > 127 ==> params.ptp_domain == 127
            &&& version < 4 ==> params.ptp_domain == 0
        }),
{
    let version = bytes[4];
    let at: int = if version == 1 {
        6
    } else if version == 2 {
        7
    } else {
        8
    };
    assert(restored(bytes).ip@ =~= bytes.subrange(at + 3, at + 7));
}

/// Parameters in range are those with 1 to 96 channels, a port above 0, and a clock domain up to 127.
pub proof fn law_what_is_in_range(params: StreamParameters)
    ensures
        is_normal(params) <==> 1 <= params.channels <= 96 && params.port > 0 && params.ptp_domain
            <= 127,
{
}

} // verus!
