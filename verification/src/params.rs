//! The parameters that a host sees: their ranges, their names, and their texts.

use crate::lines::{is_one_of, to_ascii_lowercase, trim};
use crate::stream::{
    ClockReference, StreamMode, StreamParameters, StreamTransport, MAX_CHANNELS,
};
use crate::text::{chars_of, decimal_text, parse_number};
use crate::wide::read_wide;
use vstd::prelude::*;
use vstd::string::*;

verus! {

pub const PARAM_ENABLED: u32 = 0;

pub const PARAM_MODE: u32 = 1;

pub const PARAM_TRANSPORT: u32 = 2;

pub const PARAM_CHANNELS: u32 = 3;

pub const PARAM_PORT: u32 = 4;

pub const PARAM_IP_1: u32 = 5;

pub const PARAM_IP_2: u32 = 6;

pub const PARAM_IP_3: u32 = 7;

pub const PARAM_IP_4: u32 = 8;

pub const PARAM_CLOCK_REF: u32 = 9;

pub const PARAM_PTP_DOMAIN: u32 = 10;

pub const PARAM_APPLY_SEQ: u32 = 11;

/// How many parameters there are.
pub const PARAM_COUNT: i32 = 12;

/// What a host needs to know of a parameter.
#[derive(Clone, Copy)]
pub struct IntParamSpec {
    pub id: u32,
    pub title: &'static str,
    pub short_title: &'static str,
    pub units: &'static str,
    pub min: u32,
    pub max: u32,
    pub default: u32,
}

/// A value brought into a range.
pub open spec fn clamped(value: u32, min: u32, max: u32) -> u32 {
    if value < min {
        min
    } else if value > max {
        max
    } else {
        value
    }
}

impl IntParamSpec {
    /// Whether the range is one, and small enough to be counted in steps.
    pub open spec fn wf(self) -> bool {
        &&& self.min <= self.default <= self.max
        &&& self.max - self.min <= i32::MAX
    }

    /// How many steps the range has.
    pub fn step_count(self) -> (steps: i32)
        requires
            self.wf(),
        ensures
            steps == self.max - self.min,
    {
        (self.max - self.min) as i32
    }

    /// Brings a value into the range.
    pub fn clamp(self, value: u32) -> (inside: u32)
        requires
            self.min <= self.max,
        ensures
            inside == clamped(value, self.min, self.max),
    {
        if value < self.min {
            self.min
        } else if value > self.max {
            self.max
        } else {
            value
        }
    }

    /// The value at a step of the range.
    pub fn plain_at_step(self, step: u32) -> (plain: u32)
        requires
            self.min <= self.max,
        ensures
            plain == (if step <= self.max - self.min {
                self.min + step
            } else {
                self.max as int
            }),
    {
        if step <= self.max - self.min {
            self.min + step
        } else {
            self.max
        }
    }

    /// The step of the range at which a value is, once it is brought into the range.
    pub fn step_of_plain(self, plain: u32) -> (step: u32)
        requires
            self.min <= self.max,
        ensures
            step == clamped(plain, self.min, self.max) - self.min,
    {
        self.clamp(plain) - self.min
    }
}

/// A stream that is not set up yet.
pub open spec fn default_params() -> StreamParameters {
    StreamParameters {
        enabled: false,
        mode: StreamMode::Send,
        transport: StreamTransport::Unicast,
        channels: 2,
        port: 5004,
        ip: [127, 0, 0, 1],
        clock_reference: ClockReference::Local,
        ptp_domain: 0,
    }
}

/// A stream that is not set up yet.
pub fn default_stream_parameters() -> (params: StreamParameters)
    ensures
        params == default_params(),
{
    let params = StreamParameters {
        enabled: false,
        mode: StreamMode::Send,
        transport: StreamTransport::Unicast,
        channels: 2,
        port: 5004,
        ip: [127, 0, 0, 1],
        clock_reference: ClockReference::Local,
        ptp_domain: 0,
    };
    params
}

/// The title of a parameter.
pub open spec fn title_of(id: u32) -> Seq<char> {
    if id == PARAM_ENABLED {
        "Enabled"@
    } else if id == PARAM_MODE {
        "Mode"@
    } else if id == PARAM_TRANSPORT {
        "Transport"@
    } else if id == PARAM_CHANNELS {
        "Channels"@
    } else if id == PARAM_PORT {
        "Port"@
    } else if id == PARAM_IP_1 {
        "IP Octet 1"@
    } else if id == PARAM_IP_2 {
        "IP Octet 2"@
    } else if id == PARAM_IP_3 {
        "IP Octet 3"@
    } else if id == PARAM_IP_4 {
        "IP Octet 4"@
    } else if id == PARAM_CLOCK_REF {
        "Clock Reference"@
    } else if id == PARAM_PTP_DOMAIN {
        "PTP Domain"@
    } else {
        "Apply Sequence"@
    }
}

/// The short title of a parameter.
pub open spec fn short_title_of(id: u32) -> Seq<char> {
    if id == PARAM_ENABLED {
        "Enable"@
    } else if id == PARAM_MODE {
        "Mode"@
    } else if id == PARAM_TRANSPORT {
        "Xport"@
    } else if id == PARAM_CHANNELS {
        "Ch"@
    } else if id == PARAM_PORT {
        "Port"@
    } else if id == PARAM_IP_1 {
        "IP1"@
    } else if id == PARAM_IP_2 {
        "IP2"@
    } else if id == PARAM_IP_3 {
        "IP3"@
    } else if id == PARAM_IP_4 {
        "IP4"@
    } else if id == PARAM_CLOCK_REF {
        "Clock"@
    } else if id == PARAM_PTP_DOMAIN {
        "Domain"@
    } else {
        "Apply"@
    }
}

/// The range of a parameter.
pub open spec fn range_of(id: u32) -> (u32, u32) {
    if id == PARAM_ENABLED || id == PARAM_MODE || id == PARAM_TRANSPORT || id == PARAM_CLOCK_REF {
        (0, 1)
    } else if id == PARAM_CHANNELS {
        (1, MAX_CHANNELS as u32)
    } else if id == PARAM_PORT {
        (1, u16::MAX as u32)
    } else if id == PARAM_PTP_DOMAIN {
        (0, 127)
    } else if id == PARAM_APPLY_SEQ {
        (0, u16::MAX as u32)
    } else {
        (0, 255)
    }
}

/// The value that a stream's parameters give to a parameter of the host.
pub open spec fn plain_of(params: StreamParameters, id: u32) -> u32 {
    if id == PARAM_ENABLED {
        if params.enabled {
            1
        } else {
            0
        }
    } else if id == PARAM_MODE {
        params.mode.code() as u32
    } else if id == PARAM_TRANSPORT {
        params.transport.code() as u32
    } else if id == PARAM_CHANNELS {
        params.channels as u32
    } else if id == PARAM_PORT {
        params.port as u32
    } else if PARAM_IP_1 <= id <= PARAM_IP_4 {
        params.ip@[id - PARAM_IP_1] as u32
    } else if id == PARAM_CLOCK_REF {
        params.clock_reference.code() as u32
    } else if id == PARAM_PTP_DOMAIN {
        params.ptp_domain as u32
    } else {
        0
    }
}

/// What a host needs to know of a parameter, where there is one by the number.
pub fn parameter_spec(id: u32) -> (spec: Option<IntParamSpec>)
    ensures
        spec is Some <==> id < PARAM_COUNT,
        spec matches Some(s) ==> {
            &&& s.wf()
            &&& s.id == id
            &&& s.title@ == title_of(id)
            &&& s.short_title@ == short_title_of(id)
            &&& s.units@ == (if id == PARAM_CHANNELS {
                "ch"@
            } else {
                ""@
            })
            &&& (s.min, s.max) == range_of(id)
            &&& s.default == plain_of(default_params(), id)
        },
{
    let (title, short_title, units, min, max, default) = match id {
        0 => ("Enabled", "Enable", "", 0u32, 1u32, 0u32),
        1 => ("Mode", "Mode", "", 0u32, 1u32, 0u32),
        2 => ("Transport", "Xport", "", 0u32, 1u32, 0u32),
        3 => ("Channels", "Ch", "ch", 1u32, MAX_CHANNELS as u32, 2u32),
        4 => ("Port", "Port", "", 1u32, u16::MAX as u32, 5004u32),
        5 => ("IP Octet 1", "IP1", "", 0u32, 255u32, 127u32),
        6 => ("IP Octet 2", "IP2", "", 0u32, 255u32, 0u32),
        7 => ("IP Octet 3", "IP3", "", 0u32, 255u32, 0u32),
        8 => ("IP Octet 4", "IP4", "", 0u32, 255u32, 1u32),
        9 => ("Clock Reference", "Clock", "", 0u32, 1u32, 0u32),
        10 => ("PTP Domain", "Domain", "", 0u32, 127u32, 0u32),
        11 => ("Apply Sequence", "Apply", "", 0u32, u16::MAX as u32, 0u32),
        _ => {
            return None;
        },
    };
    Some(IntParamSpec { id, title, short_title, units, min, max, default })
}

/// A value that was put at its step of a range comes back, brought into the range.
pub proof fn law_steps_round_trip(id: u32, plain: u32)
    requires
        id < PARAM_COUNT,
    ensures
        ({
            let (min, max) = range_of(id);
            let step = clamped(plain, min, max) - min;
            &&& 0 <= step <= max - min
            &&& min + step == clamped(plain, min, max)
        }),
{
}

/// The stream's parameters are in the ranges that the host sees, where they are in range at all.
pub proof fn law_normal_parameters_are_in_range(params: StreamParameters, id: u32)
    requires
        crate::state::is_normal(params),
        id < PARAM_COUNT,
    ensures
        range_of(id).0 <= plain_of(params, id) <= range_of(id).1,
{
}

/// The parameters of a stream, by the values that a host gives.
#[derive(Clone, Copy, Debug)]
pub struct PlainParameters {
    pub enabled: u32,
    pub mode: u32,
    pub transport: u32,
    pub channels: u32,
    pub port: u32,
    pub ip: [u32; 4],
    pub clock_reference: u32,
    pub ptp_domain: u32,
    pub apply_seq: u32,
}

impl PlainParameters {
    /// The value of a parameter.
    pub open spec fn value(self, id: u32) -> u32 {
        if id == PARAM_ENABLED {
            self.enabled
        } else if id == PARAM_MODE {
            self.mode
        } else if id == PARAM_TRANSPORT {
            self.transport
        } else if id == PARAM_CHANNELS {
            self.channels
        } else if id == PARAM_PORT {
            self.port
        } else if PARAM_IP_1 <= id <= PARAM_IP_4 {
            self.ip@[id - PARAM_IP_1]
        } else if id == PARAM_CLOCK_REF {
            self.clock_reference
        } else if id == PARAM_PTP_DOMAIN {
            self.ptp_domain
        } else {
            self.apply_seq
        }
    }

    /// The stream's parameters, brought into range.
    pub open spec fn stream(self) -> StreamParameters {
        StreamParameters {
            enabled: self.enabled >= 1,
            mode: StreamMode::of_code(self.mode),
            transport: StreamTransport::of_code(self.transport),
            channels: clamped(self.channels, 1, MAX_CHANNELS as u32) as u8,
            port: clamped(self.port, 1, u16::MAX as u32) as u16,
            ip: [
                clamped(self.ip@[0], 0, 255) as u8,
                clamped(self.ip@[1], 0, 255) as u8,
                clamped(self.ip@[2], 0, 255) as u8,
                clamped(self.ip@[3], 0, 255) as u8,
            ],
            clock_reference: ClockReference::of_code(self.clock_reference),
            ptp_domain: clamped(self.ptp_domain, 0, 127) as u8,
        }
    }

    /// The values of a stream's parameters.
    pub fn from_stream(params: StreamParameters, apply_seq: u32) -> (plain: Self)
        ensures
            forall|id: u32| id < PARAM_APPLY_SEQ ==> #[trigger] plain.value(id) == plain_of(params, id),
            plain.value(PARAM_APPLY_SEQ) == apply_seq,
    {
        PlainParameters {
            enabled: if params.enabled {
                1
            } else {
                0
            },
            mode: params.mode.as_u8() as u32,
            transport: params.transport.as_u8() as u32,
            channels: params.channels as u32,
            port: params.port as u32,
            ip: [
                params.ip[0] as u32,
                params.ip[1] as u32,
                params.ip[2] as u32,
                params.ip[3] as u32,
            ],
            clock_reference: params.clock_reference.as_u8() as u32,
            ptp_domain: params.ptp_domain as u32,
            apply_seq,
        }
    }

    /// The stream's parameters, brought into range.
    pub fn parameters(&self) -> (params: StreamParameters)
        ensures
            params == self.stream(),
            crate::state::is_normal(params),
    {
        let ip: [u8; 4] = [
            self.octet(0),
            self.octet(1),
            self.octet(2),
            self.octet(3),
        ];
        let params = StreamParameters {
            enabled: self.enabled >= 1,
            mode: StreamMode::from_u32(self.mode),
            transport: StreamTransport::from_u32(self.transport),
            channels: clamp_u32(self.channels, 1, MAX_CHANNELS as u32) as u8,
            port: clamp_u32(self.port, 1, u16::MAX as u32) as u16,
            ip,
            clock_reference: ClockReference::from_u32(self.clock_reference),
            ptp_domain: clamp_u32(self.ptp_domain, 0, 127) as u8,
        };
        proof {
            assert(params.ip@ =~= self.stream().ip@);
            assert(params.ip =~= self.stream().ip);
        }
        params
    }

    fn octet(&self, index: usize) -> (octet: u8)
        requires
            index < 4,
        ensures
            octet == clamped(self.ip@[index as int], 0, 255) as u8,
    {
        clamp_u32(self.ip[index], 0, 255) as u8
    }

    /// Sets a parameter. Tells whether there is one by the number.
    pub fn set(&mut self, id: u32, plain: u32) -> (known: bool)
        ensures
            known == (id < PARAM_COUNT),
            !known ==> *final(self) == *old(self),
            known ==> only_change(*old(self), id, plain, *final(self)),
    {
        match id {
            0 => {
                self.enabled = plain;
            },
            1 => {
                self.mode = plain;
            },
            2 => {
                self.transport = plain;
            },
            3 => {
                self.channels = plain;
            },
            4 => {
                self.port = plain;
            },
            5 => {
                self.ip[0] = plain;
            },
            6 => {
                self.ip[1] = plain;
            },
            7 => {
                self.ip[2] = plain;
            },
            8 => {
                self.ip[3] = plain;
            },
            9 => {
                self.clock_reference = plain;
            },
            10 => {
                self.ptp_domain = plain;
            },
            11 => {
                self.apply_seq = plain;
            },
            _ => {
                return false;
            },
        }
        true
    }
}

/// Whether one parameter was set to a value, and nothing else changed.
pub open spec fn only_change(
    before: PlainParameters,
    id: u32,
    value: u32,
    after: PlainParameters,
) -> bool {
    &&& after.value(id) == value
    &&& forall|other: u32|
        other != id && other < PARAM_COUNT ==> #[trigger] after.value(other) == before.value(other)
}

/// The value of a parameter at a step of its range.
pub open spec fn value_at_step(id: u32, step: u32) -> u32 {
    let (min, max) = range_of(id);
    if step <= max - min {
        (min + step) as u32
    } else {
        max
    }
}

/// Brings a value into a range.
fn clamp_u32(value: u32, min: u32, max: u32) -> (inside: u32)
    ensures
        inside == clamped(value, min, max),
{
    if value < min {
        min
    } else if value > max {
        max
    } else {
        value
    }
}

/// The values of a stream's parameters stand for the parameters, where these are in range.
pub proof fn law_plain_values_round_trip(params: StreamParameters, plain: PlainParameters)
    requires
        crate::state::is_normal(params),
        forall|id: u32| id < PARAM_APPLY_SEQ ==> #[trigger] plain.value(id) == plain_of(params, id),
    ensures
        plain.stream() == params,
{
    assert(plain.value(PARAM_ENABLED) == plain_of(params, PARAM_ENABLED));
    assert(plain.value(PARAM_MODE) == plain_of(params, PARAM_MODE));
    assert(plain.value(PARAM_TRANSPORT) == plain_of(params, PARAM_TRANSPORT));
    assert(plain.value(PARAM_CHANNELS) == plain_of(params, PARAM_CHANNELS));
    assert(plain.value(PARAM_PORT) == plain_of(params, PARAM_PORT));
    assert(plain.value(PARAM_IP_1) == plain_of(params, PARAM_IP_1));
    assert(plain.value(PARAM_IP_2) == plain_of(params, PARAM_IP_2));
    assert(plain.value(PARAM_IP_3) == plain_of(params, PARAM_IP_3));
    assert(plain.value(PARAM_IP_4) == plain_of(params, PARAM_IP_4));
    assert(plain.value(PARAM_CLOCK_REF) == plain_of(params, PARAM_CLOCK_REF));
    assert(plain.value(PARAM_PTP_DOMAIN) == plain_of(params, PARAM_PTP_DOMAIN));
    crate::stream::law_codes_round_trip(params.mode, params.transport, params.clock_reference);
    assert(plain.stream().ip@ =~= params.ip@);
    assert(plain.stream().ip =~= params.ip);
}

/// The text of a parameter's value.
pub open spec fn value_words(id: u32, plain: u32) -> Seq<char> {
    if id == PARAM_ENABLED {
        if plain >= 1 {
            "On"@
        } else {
            "Off"@
        }
    } else if id == PARAM_MODE {
        if plain >= 1 {
            "Receive"@
        } else {
            "Send"@
        }
    } else if id == PARAM_TRANSPORT {
        if plain >= 1 {
            "Multicast"@
        } else {
            "Unicast"@
        }
    } else {
        crate::text::decimal(plain as nat)
    }
}

/// The text of a parameter's value, where there is a parameter by the number.
pub fn parameter_text(id: u32, plain: u32) -> (text: Option<String>)
    ensures
        text is Some <==> id < PARAM_COUNT,
        text matches Some(t) ==> t@ == value_words(id, plain),
{
    if id >= 12 {
        return None;
    }
    let text: String = match id {
        0 => if plain >= 1 {
            "On".to_owned()
        } else {
            "Off".to_owned()
        },
        1 => if plain >= 1 {
            "Receive".to_owned()
        } else {
            "Send".to_owned()
        },
        2 => if plain >= 1 {
            "Multicast".to_owned()
        } else {
            "Unicast".to_owned()
        },
        _ => decimal_text(plain as u64),
    };
    Some(text)
}

/// The words for zero and for one of a parameter that has words.
pub open spec fn zero_words(id: u32) -> Seq<Seq<char>> {
    if id == PARAM_ENABLED {
        seq!["off"@, "0"@, "false"@]
    } else if id == PARAM_MODE {
        seq!["send"@, "sender"@, "0"@]
    } else {
        seq!["unicast"@, "uni"@, "0"@]
    }
}

pub open spec fn one_words(id: u32) -> Seq<Seq<char>> {
    if id == PARAM_ENABLED {
        seq!["on"@, "1"@, "true"@]
    } else if id == PARAM_MODE {
        seq!["receive"@, "receiver"@, "recv"@, "1"@]
    } else {
        seq!["multicast"@, "multi"@, "1"@]
    }
}

/// The value that a text stands for: a word, in whatever case, for a parameter that has words, or
/// else a number, brought into range. White space around it does not count.
pub open spec fn value_read(id: u32, text: Seq<char>) -> Option<u32> {
    let core = crate::lines::trimmed(text);
    if id >= PARAM_COUNT {
        None
    } else if id == PARAM_ENABLED || id == PARAM_MODE || id == PARAM_TRANSPORT {
        let word = crate::lines::lowered(core);
        if one_words(id).contains(word) {
            Some(1)
        } else if zero_words(id).contains(word) {
            Some(0)
        } else {
            None
        }
    } else {
        match crate::text::number_of(core, u32::MAX as nat) {
            Ok(number) => Some(clamped(number as u32, range_of(id).0, range_of(id).1)),
            Err(_) => None,
        }
    }
}

/// Tells zero and one apart by words.
fn word_value(word: &[char], ones: &[&str], zeros: &[&str]) -> (value: Option<u32>)
    ensures
        value == (if crate::lines::words(ones@).contains(word@) {
            Some(1u32)
        } else if crate::lines::words(zeros@).contains(word@) {
            Some(0u32)
        } else {
            None
        }),
{
    if is_one_of(word, ones) {
        Some(1)
    } else if is_one_of(word, zeros) {
        Some(0)
    } else {
        None
    }
}

/// Reads a parameter's value.
pub fn parameter_from_text(id: u32, text: &str) -> (plain: Option<u32>)
    ensures
        plain == value_read(id, text@),
{
    let chars: Vec<char> = chars_of(text);
    let core: Vec<char> = trim(chars.as_slice());
    let word: Vec<char> = to_ascii_lowercase(core.as_slice());
    match id {
        0 => {
            let ones: [&str; 3] = ["on", "1", "true"];
            let zeros: [&str; 3] = ["off", "0", "false"];
            proof {
                assert(crate::lines::words(ones@) =~= one_words(id));
                assert(crate::lines::words(zeros@) =~= zero_words(id));
            }
            word_value(word.as_slice(), ones.as_slice(), zeros.as_slice())
        },
        1 => {
            let ones: [&str; 4] = ["receive", "receiver", "recv", "1"];
            let zeros: [&str; 3] = ["send", "sender", "0"];
            proof {
                assert(crate::lines::words(ones@) =~= one_words(id));
                assert(crate::lines::words(zeros@) =~= zero_words(id));
            }
            word_value(word.as_slice(), ones.as_slice(), zeros.as_slice())
        },
        2 => {
            let ones: [&str; 3] = ["multicast", "multi", "1"];
            let zeros: [&str; 3] = ["unicast", "uni", "0"];
            proof {
                assert(crate::lines::words(ones@) =~= one_words(id));
                assert(crate::lines::words(zeros@) =~= zero_words(id));
            }
            word_value(word.as_slice(), ones.as_slice(), zeros.as_slice())
        },
        _ => match parameter_spec(id) {
            None => None,
            Some(spec) => match parse_number(core.as_slice(), u32::MAX as u64) {
                Err(_) => None,
                Ok(number) => Some(spec.clamp(number as u32)),
            },
        },
    }
}

/// Reads a parameter's value as a host gives it, in UTF-16.
pub fn parameter_from_wide(id: u32, units: &[u16]) -> (plain: Option<u32>)
    ensures
        forall|text: Seq<char>|
            #[trigger] crate::wide::utf16(text) == units@ ==> plain == value_read(id, text),
        plain is Some ==> exists|text: Seq<char>| #[trigger] crate::wide::utf16(text) == units@,
{
    match read_wide(units) {
        None => None,
        Some(text) => {
            let plain: Option<u32> = parameter_from_text(id, text.as_str());
            proof {
                assert forall|other: Seq<char>|
                    #[trigger] crate::wide::utf16(other) == units@ implies plain == value_read(
                    id,
                    other,
                ) by {
                    crate::wide::law_utf16_is_injective(other, text@);
                }
            }
            plain
        },
    }
}

/// A text without white space at its ends is trimmed.
proof fn lemma_no_space_around(text: Seq<char>)
    requires
        text.len() > 0,
        !crate::lines::is_space(text[0]),
        !crate::lines::is_space(text.last()),
    ensures
        crate::lines::trimmed(text) == text,
{
    crate::lines::lemma_trimmed(text, 0, text.len() as int);
    assert(text.subrange(0, text.len() as int) =~= text);
}

proof fn lemma_enabled_is_read(plain: u32)
    requires
        plain <= 1,
    ensures
        value_read(PARAM_ENABLED, value_words(PARAM_ENABLED, plain)) == Some(plain),
{
    let id = PARAM_ENABLED;
    let text = value_words(id, plain);
    let word = crate::lines::lowered(text);
    reveal_strlit("On");
    reveal_strlit("on");
    reveal_strlit("Off");
    reveal_strlit("off");
    reveal_strlit("1");
    reveal_strlit("true");
    lemma_no_space_around(text);
    if plain == 1 {
        assert(word =~= "on"@);
        assert(one_words(id)[0] == word);
    } else {
        assert(word =~= "off"@);
        assert(zero_words(id)[0] == word);
        assert forall|i: int| 0 <= i < one_words(id).len() implies one_words(id)[i] != word by {
            assert(word[1] == 'f');
            assert(one_words(id)[0] != word);
            assert(one_words(id)[1] != word);
            assert(one_words(id)[2] != word);
        }
    }
}

proof fn lemma_mode_is_read(plain: u32)
    requires
        plain <= 1,
    ensures
        value_read(PARAM_MODE, value_words(PARAM_MODE, plain)) == Some(plain),
{
    let id = PARAM_MODE;
    let text = value_words(id, plain);
    let word = crate::lines::lowered(text);
    reveal_strlit("Receive");
    reveal_strlit("receive");
    reveal_strlit("Send");
    reveal_strlit("send");
    reveal_strlit("receiver");
    reveal_strlit("recv");
    reveal_strlit("1");
    lemma_no_space_around(text);
    if plain == 1 {
        assert(word =~= "receive"@);
        assert(one_words(id)[0] == word);
    } else {
        assert(word =~= "send"@);
        assert(zero_words(id)[0] == word);
        assert forall|i: int| 0 <= i < one_words(id).len() implies one_words(id)[i] != word by {
            assert(word[0] == 's');
            assert(one_words(id)[0] != word);
            assert(one_words(id)[1] != word);
            assert(one_words(id)[2][0] == 'r');
            assert(one_words(id)[2] != word);
            assert(one_words(id)[3] != word);
        }
    }
}

proof fn lemma_transport_is_read(plain: u32)
    requires
        plain <= 1,
    ensures
        value_read(PARAM_TRANSPORT, value_words(PARAM_TRANSPORT, plain)) == Some(plain),
{
    let id = PARAM_TRANSPORT;
    let text = value_words(id, plain);
    let word = crate::lines::lowered(text);
    reveal_strlit("Multicast");
    reveal_strlit("multicast");
    reveal_strlit("Unicast");
    reveal_strlit("unicast");
    reveal_strlit("multi");
    reveal_strlit("1");
    lemma_no_space_around(text);
    if plain == 1 {
        assert(word =~= "multicast"@);
        assert(one_words(id)[0] == word);
    } else {
        assert(word =~= "unicast"@);
        assert(zero_words(id)[0] == word);
        assert forall|i: int| 0 <= i < one_words(id).len() implies one_words(id)[i] != word by {
            assert(word[1] == 'n');
            assert(one_words(id)[0] != word);
            assert(one_words(id)[1] != word);
            assert(one_words(id)[2] != word);
        }
    }
}

/// The text of a value in range is read back as the value.
pub proof fn law_value_texts_round_trip(id: u32, plain: u32)
    requires
        id < PARAM_COUNT,
        range_of(id).0 <= plain <= range_of(id).1,
    ensures
        value_read(id, value_words(id, plain)) == Some(plain),
{
    if id == PARAM_ENABLED {
        lemma_enabled_is_read(plain);
    } else if id == PARAM_MODE {
        lemma_mode_is_read(plain);
    } else if id == PARAM_TRANSPORT {
        lemma_transport_is_read(plain);
    } else {
        let text = value_words(id, plain);
        crate::text::lemma_decimal_digits(plain as nat);
        let last = text.len() - 1;
        assert(crate::text::is_digit(text[0]) && crate::text::is_digit(text[last]));
        lemma_no_space_around(text);
        crate::text::law_decimal_round_trip(plain as nat, u32::MAX as nat);
    }
}

/// The token that follows one, from the end to the start.
pub open spec fn token_after(current: u32) -> u32 {
    if current >= range_of(PARAM_APPLY_SEQ).1 {
        range_of(PARAM_APPLY_SEQ).0
    } else {
        (current + 1) as u32
    }
}

/// The token that follows one, from the end to the start.
pub fn next_apply_token(current: u32) -> (next: u32)
    ensures
        next == token_after(current),
{
    if current >= u16::MAX as u32 {
        0
    } else {
        current + 1
    }
}

/// A token is never followed by itself, so that each change of it is seen.
pub proof fn law_apply_tokens_change(current: u32)
    requires
        range_of(PARAM_APPLY_SEQ).0 <= current <= range_of(PARAM_APPLY_SEQ).1,
    ensures
        token_after(current) != current,
        range_of(PARAM_APPLY_SEQ).0 <= token_after(current) <= range_of(PARAM_APPLY_SEQ).1,
{
}

/// The parameters in the order in which an editor hands them to the host.
pub open spec fn edit_order() -> Seq<u32> {
    seq![
        PARAM_MODE,
        PARAM_TRANSPORT,
        PARAM_CLOCK_REF,
        PARAM_PTP_DOMAIN,
        PARAM_CHANNELS,
        PARAM_PORT,
        PARAM_IP_1,
        PARAM_IP_2,
        PARAM_IP_3,
        PARAM_IP_4,
    ]
}

/// The edits that hand a stream's parameters to the host: all but whether it is enabled.
pub open spec fn stream_edits(params: StreamParameters) -> Seq<(u32, u32)> {
    edit_order().map_values(|id: u32| (id, plain_of(params, id)))
}

/// The edits that hand a stream's parameters to the host: all but whether it is enabled.
pub fn stream_parameter_edits(params: StreamParameters) -> (edits: Vec<(u32, u32)>)
    ensures
        edits@ == stream_edits(params),
{
    let edits: Vec<(u32, u32)> = vec![
        (PARAM_MODE, params.mode.as_u8() as u32),
        (PARAM_TRANSPORT, params.transport.as_u8() as u32),
        (PARAM_CLOCK_REF, params.clock_reference.as_u8() as u32),
        (PARAM_PTP_DOMAIN, params.ptp_domain as u32),
        (PARAM_CHANNELS, params.channels as u32),
        (PARAM_PORT, params.port as u32),
        (PARAM_IP_1, params.ip[0] as u32),
        (PARAM_IP_2, params.ip[1] as u32),
        (PARAM_IP_3, params.ip[2] as u32),
        (PARAM_IP_4, params.ip[3] as u32),
    ];
    proof {
        assert(edits@ =~= stream_edits(params));
    }
    edits
}

/// Edits that are to take effect: behind them, the token that starts the stream afresh is changed.
pub fn with_apply_token(edits: Vec<(u32, u32)>, current: u32) -> (all: Vec<(u32, u32)>)
    ensures
        all@ == edits@.push((PARAM_APPLY_SEQ, token_after(current))),
{
    let mut all: Vec<(u32, u32)> = edits;
    all.push((PARAM_APPLY_SEQ, next_apply_token(current)));
    all
}

/// The numbers of the parameters, which hosts keep with their automation, and what each holds: whether
/// the stream is on, one for receiving, one for multicast, the channels, the port, the four octets,
/// one for PTP, and the clock domain.
pub proof fn law_parameters_hold_the_stream(params: StreamParameters)
    ensures
        plain_of(params, 0) == 1 <==> params.enabled,
        plain_of(params, 1) == 1 <==> params.mode == StreamMode::Receive,
        plain_of(params, 2) == 1 <==> params.transport == StreamTransport::Multicast,
        plain_of(params, 3) == params.channels,
        plain_of(params, 4) == params.port,
        plain_of(params, 5) == params.ip@[0],
        plain_of(params, 6) == params.ip@[1],
        plain_of(params, 7) == params.ip@[2],
        plain_of(params, 8) == params.ip@[3],
        plain_of(params, 9) == 1 <==> params.clock_reference == ClockReference::Ptp,
        plain_of(params, 10) == params.ptp_domain,
        plain_of(params, 0) <= 1 && plain_of(params, 1) <= 1 && plain_of(params, 2) <= 1
            && plain_of(params, 9) <= 1,
{
}

/// The stream that a host's values stand for: each in its own place, and brought into range.
pub proof fn law_the_stream_is_what_the_parameters_say(plain: PlainParameters)
    ensures
        ({
            let params = plain.stream();
            &&& params.enabled <==> plain.value(0) > 0
            &&& params.mode == StreamMode::Receive <==> plain.value(1) == 1
            &&& params.transport == StreamTransport::Multicast <==> plain.value(2) == 1
            &&& 1 <= plain.value(3) <= 96 ==> params.channels == plain.value(3)
            &&& plain.value(3) < 1 ==> params.channels == 1
            &&& plain.value(3) > 96 ==> params.channels == 96
            &&& 1 <= plain.value(4) <= 65_535 ==> params.port == plain.value(4)
            &&& plain.value(4) < 1 ==> params.port == 1
            &&& plain.value(4) > 65_535 ==> params.port == 65_535
            &&& forall|i: int|
                #![trigger params.ip@[i]]
                0 <= i < 4 ==> params.ip@[i] == (if plain.ip@[i] <= 255 {
                    plain.ip@[i]
                } else {
                    255
                })
            &&& plain.value(5) == plain.ip@[0] && plain.value(6) == plain.ip@[1] && plain.value(7)
                == plain.ip@[2] && plain.value(8) == plain.ip@[3]
            &&& params.clock_reference == ClockReference::Ptp <==> plain.value(9) == 1
            &&& plain.value(10) <= 127 ==> params.ptp_domain == plain.value(10)
            &&& plain.value(10) > 127 ==> params.ptp_domain == 127
        }),
{
}

/// The ranges of the parameters.
pub proof fn law_ranges_of_the_parameters(id: u32)
    ensures
        id == 0 || id == 1 || id == 2 || id == 9 ==> range_of(id) == (0u32, 1u32),
        id == 3 ==> range_of(id) == (1u32, 96u32),
        id == 4 ==> range_of(id) == (1u32, 65_535u32),
        5 <= id <= 8 ==> range_of(id) == (0u32, 255u32),
        id == 10 ==> range_of(id) == (0u32, 127u32),
        id == 11 ==> range_of(id) == (0u32, 65_535u32),
{
}

/// Steps count from the least value on, and stop at the greatest.
pub proof fn law_steps_count_from_the_least(id: u32, step: u32)
    ensures
        ({
            let least = range_of(id).0;
            let greatest = range_of(id).1;
            &&& least + step <= greatest ==> value_at_step(id, step) == least + step
            &&& least + step > greatest ==> value_at_step(id, step) == greatest
        }),
{
}

/// A stream that is not set up yet is a sender of two channels to this host, which is off.
pub proof fn law_streams_start_switched_off()
    ensures
        ({
            let params = default_params();
            &&& !params.enabled
            &&& params.mode == StreamMode::Send
            &&& params.transport == StreamTransport::Unicast
            &&& params.channels == 2
            &&& params.port == 5004
            &&& params.ip@ == seq![127u8, 0u8, 0u8, 1u8]
            &&& params.clock_reference == ClockReference::Local
            &&& params.ptp_domain == 0
        }),
{
    assert(default_params().ip@ =~= seq![127u8, 0u8, 0u8, 1u8]);
}

/// A token is followed by the next number, and the last of them by zero.
pub proof fn law_tokens_count_up(current: u32)
    ensures
        current < 65_535 ==> token_after(current) == current + 1,
        current >= 65_535 ==> token_after(current) == 0,
{
}

/// An editor hands every parameter of the stream to the host, once and as it is, but for whether the
/// stream is on.
pub proof fn law_edits_hand_over_the_whole_stream(params: StreamParameters, id: u32)
    requires
        1 <= id <= 10,
    ensures
        stream_edits(params).len() == 10,
        exists|i: int|
            0 <= i < 10 && #[trigger] stream_edits(params)[i] == (id, plain_of(params, id)),
        forall|i: int| 0 <= i < 10 ==> 1 <= (#[trigger] stream_edits(params)[i]).0 <= 10,
{
    let edits = stream_edits(params);
    assert(edits[0] == (1u32, plain_of(params, 1)));
    assert(edits[1] == (2u32, plain_of(params, 2)));
    assert(edits[2] == (9u32, plain_of(params, 9)));
    assert(edits[3] == (10u32, plain_of(params, 10)));
    assert(edits[4] == (3u32, plain_of(params, 3)));
    assert(edits[5] == (4u32, plain_of(params, 4)));
    assert(edits[6] == (5u32, plain_of(params, 5)));
    assert(edits[7] == (6u32, plain_of(params, 6)));
    assert(edits[8] == (7u32, plain_of(params, 7)));
    assert(edits[9] == (8u32, plain_of(params, 8)));
}

/// How the switches are written: on and off, and the modes and transports by their names. Every other
/// parameter is written as a number.
pub proof fn law_values_are_written_in_words(id: u32, plain: u32)
    ensures
        id == 0 && plain >= 1 ==> value_words(id, plain) == "On"@,
        id == 0 && plain == 0 ==> value_words(id, plain) == "Off"@,
        id == 1 && plain >= 1 ==> value_words(id, plain) == "Receive"@,
        id == 1 && plain == 0 ==> value_words(id, plain) == "Send"@,
        id == 2 && plain >= 1 ==> value_words(id, plain) == "Multicast"@,
        id == 2 && plain == 0 ==> value_words(id, plain) == "Unicast"@,
        id >= 3 ==> value_words(id, plain) == crate::text::decimal(plain as nat),
{
}

/// How the switches are read: by their words, in whatever case and with whatever space around them. No
/// other word is read.
#[verifier::spinoff_prover]
pub proof fn law_switches_are_read_from_words(id: u32, text: Seq<char>)
    requires
        id <= 2,
    ensures
        ({
            let word = crate::lines::lowered(crate::lines::trimmed(text));
            &&& id == 0 ==> (value_read(id, text) == Some(1u32) <==> word == "on"@ || word == "1"@ || word == "true"@)
            &&& id == 1 ==> (value_read(id, text) == Some(1u32) <==> word == "receive"@ || word == "receiver"@ || word == "recv"@ || word == "1"@)
            &&& id == 2 ==> (value_read(id, text) == Some(1u32) <==> word == "multicast"@ || word == "multi"@ || word == "1"@)
            &&& id == 0 ==> (value_read(id, text) == Some(0u32) <==> word == "off"@ || word == "0"@ || word == "false"@)
            &&& id == 1 ==> (value_read(id, text) == Some(0u32) <==> word == "send"@ || word == "sender"@ || word == "0"@)
            &&& id == 2 ==> (value_read(id, text) == Some(0u32) <==> word == "unicast"@ || word == "uni"@ || word == "0"@)
        }),
{
    reveal_strlit("0");
    reveal_strlit("1");
    reveal_strlit("false");
    reveal_strlit("multi");
    reveal_strlit("multicast");
    reveal_strlit("off");
    reveal_strlit("on");
    reveal_strlit("receive");
    reveal_strlit("receiver");
    reveal_strlit("recv");
    reveal_strlit("send");
    reveal_strlit("sender");
    reveal_strlit("true");
    reveal_strlit("uni");
    reveal_strlit("unicast");
    assert("0"@.len() == 1 && "0"@[0] == '0' && "0"@[0] == '0');
    assert("1"@.len() == 1 && "1"@[0] == '1' && "1"@[0] == '1');
    assert("false"@.len() == 5 && "false"@[0] == 'f' && "false"@[4] == 'e');
    assert("multi"@.len() == 5 && "multi"@[0] == 'm' && "multi"@[4] == 'i');
    assert("multicast"@.len() == 9 && "multicast"@[0] == 'm' && "multicast"@[8] == 't');
    assert("off"@.len() == 3 && "off"@[0] == 'o' && "off"@[2] == 'f');
    assert("on"@.len() == 2 && "on"@[0] == 'o' && "on"@[1] == 'n');
    assert("receive"@.len() == 7 && "receive"@[0] == 'r' && "receive"@[6] == 'e');
    assert("receiver"@.len() == 8 && "receiver"@[0] == 'r' && "receiver"@[7] == 'r');
    assert("recv"@.len() == 4 && "recv"@[0] == 'r' && "recv"@[3] == 'v');
    assert("send"@.len() == 4 && "send"@[0] == 's' && "send"@[3] == 'd');
    assert("sender"@.len() == 6 && "sender"@[0] == 's' && "sender"@[5] == 'r');
    assert("true"@.len() == 4 && "true"@[0] == 't' && "true"@[3] == 'e');
    assert("uni"@.len() == 3 && "uni"@[0] == 'u' && "uni"@[2] == 'i');
    assert("unicast"@.len() == 7 && "unicast"@[0] == 'u' && "unicast"@[6] == 't');
    let word = crate::lines::lowered(crate::lines::trimmed(text));
    let ones = one_words(id);
    let zeros = zero_words(id);
    assert(ones.contains(word) <==> (exists|i: int| 0 <= i < ones.len() && ones[i] == word));
    if id == 0 {
        assert(ones[0] == "on"@);
        assert(ones[1] == "1"@);
        assert(ones[2] == "true"@);
        assert(zeros[0] == "off"@);
        assert(zeros[1] == "0"@);
        assert(zeros[2] == "false"@);
    }
    if id == 1 {
        assert(ones[0] == "receive"@);
        assert(ones[1] == "receiver"@);
        assert(ones[2] == "recv"@);
        assert(ones[3] == "1"@);
        assert(zeros[0] == "send"@);
        assert(zeros[1] == "sender"@);
        assert(zeros[2] == "0"@);
    }
    if id == 2 {
        assert(ones[0] == "multicast"@);
        assert(ones[1] == "multi"@);
        assert(ones[2] == "1"@);
        assert(zeros[0] == "unicast"@);
        assert(zeros[1] == "uni"@);
        assert(zeros[2] == "0"@);
    }
}

/// How the other parameters are read: a number, with whatever space around it, held in its range.
pub proof fn law_numbers_are_read_into_their_ranges(id: u32, text: Seq<char>, number: nat)
    requires
        3 <= id < 12,
        number <= u32::MAX,
        crate::lines::trimmed(text) == crate::text::decimal(number),
    ensures
        ({
            let least = range_of(id).0;
            let greatest = range_of(id).1;
            &&& least <= number <= greatest ==> value_read(id, text) == Some(number as u32)
            &&& number < least ==> value_read(id, text) == Some(least)
            &&& number > greatest ==> value_read(id, text) == Some(greatest)
        }),
{
    crate::text::law_decimal_round_trip(number, u32::MAX as nat);
}

/// There are twelve parameters, and no value is read for any other.
pub proof fn law_there_are_twelve_parameters(id: u32, text: Seq<char>)
    ensures
        id >= 12 ==> value_read(id, text) is None,
        PARAM_COUNT == 12,
{
}

} // verus!
