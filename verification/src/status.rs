//! What a stream reports: warnings, the session description, and the runtime status that the
//! processor writes and the editor reads.

use crate::lines::{find_value, split_lines};
use crate::receiver::ReceiverStatus;
use crate::sender::SenderStatus;
use crate::stream::{
    ClockReference, Endpoint, StreamLevel, StreamMode, StreamParameters, StreamTransport,
    PAYLOAD_TYPE_L24,
};
use crate::text::{
    chars_of, decimal_text, dotted_text, push_chars, push_decimal, push_dotted, push_two_digits,
    same_text,
};
use vstd::prelude::*;
use vstd::string::*;

verus! {

/// The name of the file that a sender writes its session description to.
pub const SDP_FILE_NAME: &'static str = "somethingnet.sdp";

/// How long the runtime status is left as it is, in milliseconds.
pub const STATUS_INTERVAL_MS: u64 = 250;

/// One warning, where a condition holds.
pub open spec fn warned(condition: bool, warning: Seq<char>) -> Seq<Seq<char>> {
    if condition {
        seq![warning]
    } else {
        Seq::empty()
    }
}

/// What is to be said about a stream.
pub open spec fn warnings(sample_rate_hz: u32, channels: u8, clock: ClockReference) -> Seq<Seq<char>> {
    warned(sample_rate_hz == 44_100, "44.1 kHz is supported but not ST 2110-30 compliant"@)
        + warned(
        sample_rate_hz == 48_000 && channels > 8,
        "More than 8 channels at 48 kHz is outside ST 2110-30 Level A"@,
    ) + warned(
        sample_rate_hz == 96_000 && channels > 4,
        "More than 4 channels at 96 kHz is outside ST 2110-30 Level AX"@,
    ) + warned(
        channels > 64,
        "More than 64 channels is transport-only; the VST3 wrapper is capped at 64 channels"@,
    ) + warned(
        channels >= 64 && sample_rate_hz >= 48_000,
        "High-channel RTP packets can exceed standard Ethernet MTU; use wired low-jitter networking"@,
    ) + warned(
        clock is Ptp,
        "PTP mode currently advertises SDP clock reference and domain only; host clock discipline is still TODO"@,
    )
}

/// Texts with a bar between them.
pub open spec fn barred(parts: Seq<Seq<char>>) -> Seq<char>
    decreases parts.len(),
{
    if parts.len() == 0 {
        Seq::empty()
    } else if parts.len() == 1 {
        parts[0]
    } else {
        barred(parts.drop_last()) + " | "@ + parts.last()
    }
}

/// Puts texts behind each other with a bar between them.
fn join_with_bars(parts: &Vec<&'static str>) -> (text: String)
    ensures
        text@ == barred(crate::lines::words(parts@)),
{
    let ghost all = crate::lines::words(parts@);
    let mut text: String = String::new();
    let mut index: usize = 0;
    while index < parts.len()
        invariant
            all == crate::lines::words(parts@),
            index <= parts@.len(),
            text@ == barred(all.take(index as int)),
        decreases parts@.len() - index,
    {
        if index > 0 {
            text.append(" | ");
        }
        text.append(parts[index]);
        proof {
            let longer = all.take(index + 1);
            assert(longer.drop_last() =~= all.take(index as int));
            assert(longer.last() == parts@[index as int]@);
            if index == 0 {
                assert(text@ =~= longer[0]);
            }
        }
        index = index + 1;
    }
    proof {
        assert(all.take(all.len() as int) =~= all);
    }
    text
}

/// What is to be said about a stream: nothing where it keeps to the standard.
pub fn warning_text(sample_rate_hz: u32, channels: u8, clock_reference: ClockReference) -> (text:
    String)
    ensures
        text@ == barred(warnings(sample_rate_hz, channels, clock_reference)),
{
    let mut list: Vec<&'static str> = Vec::new();
    if sample_rate_hz == 44_100 {
        list.push("44.1 kHz is supported but not ST 2110-30 compliant");
    }
    if sample_rate_hz == 48_000 && channels > 8 {
        list.push("More than 8 channels at 48 kHz is outside ST 2110-30 Level A");
    }
    if sample_rate_hz == 96_000 && channels > 4 {
        list.push("More than 4 channels at 96 kHz is outside ST 2110-30 Level AX");
    }
    if channels > 64 {
        list.push(
            "More than 64 channels is transport-only; the VST3 wrapper is capped at 64 channels",
        );
    }
    if channels >= 64 && sample_rate_hz >= 48_000 {
        list.push(
            "High-channel RTP packets can exceed standard Ethernet MTU; use wired low-jitter networking",
        );
    }
    if clock_reference == ClockReference::Ptp {
        list.push(
            "PTP mode currently advertises SDP clock reference and domain only; host clock discipline is still TODO",
        );
    }
    proof {
        assert(crate::lines::words(list@) =~= warnings(sample_rate_hz, channels, clock_reference));
    }
    join_with_bars(&list)
}

/// A stream is warned of exactly where it is not one of the standard: where it runs at 44.1 kHz,
/// has more channels than its level allows, or follows a network clock.
pub proof fn law_streams_outside_the_standard_are_warned_of(
    sample_rate_hz: u32,
    channels: u8,
    clock: ClockReference,
    level: StreamLevel,
)
    requires
        crate::stream::level_of(sample_rate_hz, channels) == Some(level),
    ensures
        barred(warnings(sample_rate_hz, channels, clock)).len() == 0 <==> clock is Local && match level {
            StreamLevel::A48k => channels <= 8,
            StreamLevel::Legacy44k1 => false,
            StreamLevel::AX96k => channels <= 4,
        },
{
    let list = warnings(sample_rate_hz, channels, clock);
    reveal_strlit("44.1 kHz is supported but not ST 2110-30 compliant");
    reveal_strlit("More than 8 channels at 48 kHz is outside ST 2110-30 Level A");
    reveal_strlit("More than 4 channels at 96 kHz is outside ST 2110-30 Level AX");
    reveal_strlit(
        "PTP mode currently advertises SDP clock reference and domain only; host clock discipline is still TODO",
    );
    reveal_strlit(" | ");
    if list.len() == 1 {
        assert(barred(list) == list[0]);
    } else if list.len() > 1 {
        assert(barred(list) == barred(list.drop_last()) + " | "@ + list.last());
    }
}

/// A channel order: a group of so many undefined channels.
pub open spec fn channel_group(channels: u8) -> Seq<char> {
    "U"@ + crate::text::two_digits(channels as nat)
}

/// A channel order: a group of so many undefined channels.
pub fn channel_order(channels: u8) -> (text: String)
    ensures
        text@ == channel_group(channels),
{
    let mut text: String = "U".to_owned();
    push_two_digits(&mut text, channels as u64);
    text
}

/// The line that advertises the clock domain, where the stream follows a network clock.
pub open spec fn domain_line(params: StreamParameters) -> Seq<char> {
    match params.clock_reference {
        ClockReference::Ptp => "a=x-somenet-ptp-domain:"@ + crate::text::decimal(
            params.ptp_domain as nat,
        ) + "\r\n"@,
        ClockReference::Local => Seq::empty(),
    }
}

/// The session description of a stream.
pub open spec fn session_description(
    local_ip: [u8; 4],
    destination: Endpoint,
    level: StreamLevel,
    params: StreamParameters,
) -> Seq<char> {
    let payload_type = crate::text::decimal(PAYLOAD_TYPE_L24 as nat);
    let ptime = crate::text::decimal(1);
    "v=0\r\no=- 0 0 IN IP4 "@ + crate::text::dotted(local_ip)
        + "\r\ns=SomeNET Sender\r\nc=IN IP4 "@ + crate::text::dotted(destination.ip)
        + "\r\nt=0 0\r\nm=audio "@ + crate::text::decimal(destination.port as nat)
        + " RTP/AVP "@ + payload_type + "\r\na=rtpmap:"@ + payload_type + " L24/"@
        + crate::text::decimal(level.rate() as nat) + "/"@ + crate::text::decimal(
        params.channels as nat,
    ) + "\r\na=fmtp:"@ + payload_type + " channel-order=SMPTE2110.("@ + channel_group(
        params.channels,
    ) + ")\r\na=ptime:"@ + ptime + "\r\na=maxptime:"@ + ptime + "\r\na=sendonly\r\n"@
        + params.clock_reference.sdp_line() + "a=mediaclk:direct=0\r\n"@ + domain_line(params)
        + "a=x-conformance:"@ + level.conformance() + "\r\n"@
}

/// Writes the session description of a stream.
pub fn sdp_text(
    local_ip: [u8; 4],
    destination: Endpoint,
    level: StreamLevel,
    params: StreamParameters,
) -> (text: String)
    ensures
        text@ == session_description(local_ip, destination, level, params),
{
    let payload_type: String = decimal_text(PAYLOAD_TYPE_L24 as u64);
    let ptime: String = decimal_text(level.ptime_ms() as u64);
    let order: String = channel_order(params.channels);
    let mut domain: String = String::new();
    if params.clock_reference == ClockReference::Ptp {
        domain = "a=x-somenet-ptp-domain:".to_owned();
        push_decimal(&mut domain, params.ptp_domain as u64);
        domain.append("\r\n");
    }
    let mut text: String = "v=0\r\no=- 0 0 IN IP4 ".to_owned();
    push_dotted(&mut text, local_ip);
    text.append("\r\ns=SomeNET Sender\r\nc=IN IP4 ");
    push_dotted(&mut text, destination.ip);
    text.append("\r\nt=0 0\r\nm=audio ");
    push_decimal(&mut text, destination.port as u64);
    text.append(" RTP/AVP ");
    text.append(payload_type.as_str());
    text.append("\r\na=rtpmap:");
    text.append(payload_type.as_str());
    text.append(" L24/");
    push_decimal(&mut text, level.sample_rate_hz() as u64);
    text.append("/");
    push_decimal(&mut text, params.channels as u64);
    text.append("\r\na=fmtp:");
    text.append(payload_type.as_str());
    text.append(" channel-order=SMPTE2110.(");
    text.append(order.as_str());
    text.append(")\r\na=ptime:");
    text.append(ptime.as_str());
    text.append("\r\na=maxptime:");
    text.append(ptime.as_str());
    text.append("\r\na=sendonly\r\n");
    text.append(params.clock_reference.sdp_ts_refclk());
    text.append("a=mediaclk:direct=0\r\n");
    text.append(domain.as_str());
    text.append("a=x-conformance:");
    text.append(level.conformance_label());
    text.append("\r\n");
    text
}

/// The text of a flag: one or zero.
pub open spec fn flag(on: bool) -> Seq<char> {
    if on {
        "1"@
    } else {
        "0"@
    }
}

pub(crate) fn flag_text(on: bool) -> (text: &'static str)
    ensures
        text@ == flag(on),
{
    if on {
        "1"
    } else {
        "0"
    }
}

/// The word for a transport.
pub open spec fn transport_word(transport: StreamTransport) -> Seq<char> {
    match transport {
        StreamTransport::Unicast => "unicast"@,
        StreamTransport::Multicast => "multicast"@,
    }
}

pub fn transport_name(transport: StreamTransport) -> (name: &'static str)
    ensures
        name@ == transport_word(transport),
{
    match transport {
        StreamTransport::Unicast => "unicast",
        StreamTransport::Multicast => "multicast",
    }
}

/// Lines of keys and values as they are written.
struct Report {
    text: String,
    lines: Ghost<Seq<Seq<char>>>,
}

impl Report {
    /// The text holds the lines.
    spec fn wf(&self) -> bool {
        self.text@ == crate::lines::joined_lines(self.lines@)
    }

    fn new() -> (report: Self)
        ensures
            report.wf(),
            report.lines@ == Seq::<Seq<char>>::empty(),
    {
        Report { text: String::new(), lines: Ghost(Seq::empty()) }
    }

    /// Adds a key and its value.
    fn put(&mut self, key: &str, value: &str)
        requires
            old(self).wf(),
        ensures
            final(self).wf(),
            final(self).lines@ == old(self).lines@.push(crate::lines::keyed_line(key@, value@)),
    {
        let ghost before = self.text@;
        self.text.append(key);
        self.text.push('=');
        self.text.append(value);
        self.text.push('\n');
        proof {
            let line = crate::lines::keyed_line(key@, value@);
            let longer = self.lines@.push(line);
            assert(longer.drop_last() =~= self.lines@);
            assert(self.text@ =~= before + line + seq!['\n']);
            self.lines@ = longer;
        }
    }

    /// Adds a key and a number.
    fn put_number(&mut self, key: &str, value: u64)
        requires
            old(self).wf(),
        ensures
            final(self).wf(),
            final(self).lines@ == old(self).lines@.push(
                crate::lines::keyed_line(key@, crate::text::decimal(value as nat)),
            ),
    {
        let number: String = decimal_text(value);
        self.put(key, number.as_str());
    }
}

/// The lines of a sender's runtime status.
pub open spec fn sender_report(
    params: StreamParameters,
    sample_rate_hz: u32,
    status: SenderStatus,
) -> Seq<Seq<char>> {
    seq![
        crate::lines::keyed_line("mode"@, "send"@),
        crate::lines::keyed_line("transport"@, transport_word(params.transport)),
        crate::lines::keyed_line("active"@, flag(status.active)),
        crate::lines::keyed_line("sample_rate"@, crate::text::decimal(sample_rate_hz as nat)),
        crate::lines::keyed_line("channels"@, crate::text::decimal(params.channels as nat)),
        crate::lines::keyed_line(
            params.endpoint_name(),
            crate::text::dotted(params.ip) + ":"@ + crate::text::decimal(params.port as nat),
        ),
        crate::lines::keyed_line("packets_sent"@, crate::text::decimal(status.packets_sent as nat)),
        crate::lines::keyed_line(
            "packets_dropped"@,
            crate::text::decimal(status.packets_dropped as nat),
        ),
        crate::lines::keyed_line(
            "queued_frames"@,
            crate::text::decimal(status.queued_frames as nat),
        ),
        crate::lines::keyed_line(
            "warning"@,
            barred(warnings(sample_rate_hz, params.channels, params.clock_reference)),
        ),
    ]
}

/// Writes a sender's runtime status.
pub fn sender_status_text(params: StreamParameters, sample_rate_hz: u32, status: SenderStatus) -> (text:
    String)
    ensures
        text@ == crate::lines::joined_lines(sender_report(params, sample_rate_hz, status)),
{
    let mut endpoint: String = dotted_text(params.ip);
    endpoint.append(":");
    push_decimal(&mut endpoint, params.port as u64);
    let warning: String = warning_text(sample_rate_hz, params.channels, params.clock_reference);
    let mut report = Report::new();
    report.put("mode", "send");
    report.put("transport", transport_name(params.transport));
    report.put("active", flag_text(status.active));
    report.put_number("sample_rate", sample_rate_hz as u64);
    report.put_number("channels", params.channels as u64);
    report.put(params.endpoint_label(), endpoint.as_str());
    report.put_number("packets_sent", status.packets_sent);
    report.put_number("packets_dropped", status.packets_dropped);
    report.put_number("queued_frames", status.queued_frames as u64);
    report.put("warning", warning.as_str());
    proof {
        assert(report.lines@ =~= sender_report(params, sample_rate_hz, status));
    }
    report.text
}

/// The lines of a receiver's runtime status.
pub open spec fn receiver_report(
    params: StreamParameters,
    sample_rate_hz: u32,
    status: ReceiverStatus,
) -> Seq<Seq<char>> {
    seq![
        crate::lines::keyed_line("mode"@, "receive"@),
        crate::lines::keyed_line("transport"@, transport_word(params.transport)),
        crate::lines::keyed_line("active"@, flag(status.active)),
        crate::lines::keyed_line("primed"@, flag(status.primed)),
        crate::lines::keyed_line("sample_rate"@, crate::text::decimal(sample_rate_hz as nat)),
        crate::lines::keyed_line("channels"@, crate::text::decimal(params.channels as nat)),
        crate::lines::keyed_line(
            "listen"@,
            "0.0.0.0:"@ + crate::text::decimal(params.port as nat),
        ),
        crate::lines::keyed_line(params.endpoint_name(), crate::text::dotted(params.ip)),
        crate::lines::keyed_line(
            "packets_received"@,
            crate::text::decimal(status.packets_received as nat),
        ),
        crate::lines::keyed_line(
            "packets_dropped"@,
            crate::text::decimal(status.packets_dropped as nat),
        ),
        crate::lines::keyed_line(
            "packets_invalid"@,
            crate::text::decimal(status.packets_invalid as nat),
        ),
        crate::lines::keyed_line(
            "packets_invalid_header"@,
            crate::text::decimal(status.packets_invalid_header as nat),
        ),
        crate::lines::keyed_line(
            "packets_invalid_format"@,
            crate::text::decimal(status.packets_invalid_format as nat),
        ),
        crate::lines::keyed_line(
            "packets_invalid_frame_mismatch"@,
            crate::text::decimal(status.packets_invalid_frame_mismatch as nat),
        ),
        crate::lines::keyed_line(
            "last_invalid_samples"@,
            crate::text::decimal(status.last_invalid_samples as nat),
        ),
        crate::lines::keyed_line("packets_lost"@, crate::text::decimal(status.packets_lost as nat)),
        crate::lines::keyed_line(
            "packets_out_of_order"@,
            crate::text::decimal(status.packets_out_of_order as nat),
        ),
        crate::lines::keyed_line(
            "queued_samples"@,
            crate::text::decimal(status.queued_samples as nat),
        ),
        crate::lines::keyed_line(
            "target_buffer_samples"@,
            crate::text::decimal(status.target_buffer_samples as nat),
        ),
        crate::lines::keyed_line(
            "last_callback_frames"@,
            crate::text::decimal(status.last_callback_frames as nat),
        ),
        crate::lines::keyed_line("underruns"@, crate::text::decimal(status.underruns as nat)),
        crate::lines::keyed_line(
            "drift_corrections"@,
            crate::text::decimal(status.drift_corrections as nat),
        ),
        crate::lines::keyed_line(
            "warning"@,
            barred(warnings(sample_rate_hz, params.channels, params.clock_reference)),
        ),
    ]
}

/// Writes a receiver's runtime status.
pub fn receiver_status_text(
    params: StreamParameters,
    sample_rate_hz: u32,
    status: ReceiverStatus,
) -> (text: String)
    ensures
        text@ == crate::lines::joined_lines(receiver_report(params, sample_rate_hz, status)),
{
    let mut listen: String = "0.0.0.0:".to_owned();
    push_decimal(&mut listen, params.port as u64);
    let source: String = dotted_text(params.ip);
    let warning: String = warning_text(sample_rate_hz, params.channels, params.clock_reference);
    let mut report = Report::new();
    report.put("mode", "receive");
    report.put("transport", transport_name(params.transport));
    report.put("active", flag_text(status.active));
    report.put("primed", flag_text(status.primed));
    report.put_number("sample_rate", sample_rate_hz as u64);
    report.put_number("channels", params.channels as u64);
    report.put("listen", listen.as_str());
    report.put(params.endpoint_label(), source.as_str());
    report.put_number("packets_received", status.packets_received);
    report.put_number("packets_dropped", status.packets_dropped);
    report.put_number("packets_invalid", status.packets_invalid);
    report.put_number("packets_invalid_header", status.packets_invalid_header);
    report.put_number("packets_invalid_format", status.packets_invalid_format);
    report.put_number("packets_invalid_frame_mismatch", status.packets_invalid_frame_mismatch);
    report.put_number("last_invalid_samples", status.last_invalid_samples as u64);
    report.put_number("packets_lost", status.packets_lost);
    report.put_number("packets_out_of_order", status.packets_out_of_order);
    report.put_number("queued_samples", status.queued_samples as u64);
    report.put_number("target_buffer_samples", status.target_buffer_samples as u64);
    report.put_number("last_callback_frames", status.last_callback_frames as u64);
    report.put_number("underruns", status.underruns);
    report.put_number("drift_corrections", status.drift_corrections);
    report.put("warning", warning.as_str());
    proof {
        assert(report.lines@ =~= receiver_report(params, sample_rate_hz, status));
    }
    report.text
}

/// The value that a report gives to a key.
pub open spec fn reported(report: Seq<Seq<char>>, key: Seq<char>) -> Seq<char> {
    crate::lines::value_for(report, seq![key])
}

/// The value that a report gives to its endpoint, by whichever name, the last where it names more.
pub open spec fn reported_endpoint(report: Seq<Seq<char>>) -> Seq<char> {
    crate::lines::value_for(
        report,
        seq!["destination"@, "group"@, "expected_source"@, "listen"@],
    )
}

/// The value that a report gives to what is queued, in samples or in frames.
pub open spec fn reported_queue(report: Seq<Seq<char>>) -> Seq<char> {
    crate::lines::value_for(report, seq!["queued_samples"@, "queued_frames"@])
}

/// What the editor shows before there is a report.
pub open spec fn waiting_lines(params: StreamParameters) -> Seq<Seq<char>> {
    seq![
        "Runtime: waiting for audio callback"@,
        "Mode="@ + (match params.mode {
            StreamMode::Send => "Send"@,
            StreamMode::Receive => "Receive"@,
        }) + " Transport="@ + (match params.transport {
            StreamTransport::Unicast => "Unicast"@,
            StreamTransport::Multicast => "Multicast"@,
        }) + " Ch="@ + crate::text::decimal(params.channels as nat) + " Port="@
            + crate::text::decimal(params.port as nat),
        params.endpoint_name() + "="@ + crate::text::dotted(params.ip),
        "Counters will appear once the host is actively processing audio."@,
    ]
}

/// What the editor shows of a sender's report.
pub open spec fn sender_lines(report: Seq<Seq<char>>) -> Seq<Seq<char>> {
    seq![
        "Runtime: SEND active="@ + reported(report, "active"@) + " sr="@ + reported(
            report,
            "sample_rate"@,
        ) + " ch="@ + reported(report, "channels"@) + " endpoint="@ + reported_endpoint(report),
        "Transport="@ + reported(report, "transport"@),
        "Packets sent="@ + reported(report, "packets_sent"@) + " dropped="@ + reported(
            report,
            "packets_dropped"@,
        ) + " packet_fill_frames="@ + reported_queue(report),
        if reported(report, "warning"@).len() == 0 {
            "Receiver-side counters are not shown here. Match channels and sample rate exactly."@
        } else {
            reported(report, "warning"@)
        },
    ]
}

/// What the editor shows of a receiver's report.
pub open spec fn receiver_lines(report: Seq<Seq<char>>) -> Seq<Seq<char>> {
    seq![
        "Recv a="@ + reported(report, "active"@) + " p="@ + reported(report, "primed"@) + " t="@
            + reported(report, "transport"@) + " sr="@ + reported(report, "sample_rate"@)
            + " ch="@ + reported(report, "channels"@) + " ep="@ + reported_endpoint(report),
        "rx="@ + reported(report, "packets_received"@) + " drop="@ + reported(
            report,
            "packets_dropped"@,
        ) + " bad="@ + reported(report, "packets_invalid"@) + " lost="@ + reported(
            report,
            "packets_lost"@,
        ) + " ooo="@ + reported(report, "packets_out_of_order"@),
        if reported(report, "warning"@).len() == 0 {
            "q="@ + reported_queue(report) + " tgt="@ + reported(report, "target_buffer_samples"@)
                + " cb="@ + reported(report, "last_callback_frames"@) + " underrun="@ + reported(
                report,
                "underruns"@,
            ) + " adj="@ + reported(report, "drift_corrections"@)
        } else {
            reported(report, "warning"@)
        },
        "bad_hdr="@ + reported(report, "packets_invalid_header"@) + " bad_fmt="@ + reported(
            report,
            "packets_invalid_format"@,
        ) + " bad_frames="@ + reported(report, "packets_invalid_frame_mismatch"@)
            + " last_bad_samples="@ + reported(report, "last_invalid_samples"@),
    ]
}

/// What the editor shows of the runtime status.
pub open spec fn runtime_lines(params: StreamParameters, content: Option<Seq<char>>) -> Seq<
    Seq<char>,
> {
    match content {
        None => waiting_lines(params),
        Some(text) => {
            let report = crate::lines::lines_of(text);
            if reported(report, "mode"@) == "send"@ {
                sender_lines(report)
            } else {
                receiver_lines(report)
            }
        },
    }
}

/// The texts of strings.
pub open spec fn strings(list: Seq<String>) -> Seq<Seq<char>> {
    list.map_values(|text: String| text@)
}

/// Adds a word and the value that a report gives to some keys.
fn push_reported(text: &mut String, word: &str, lines: &Vec<Vec<char>>, keys: &[&str])
    ensures
        final(text)@ == old(text)@ + word@ + crate::lines::value_for(
            crate::lines::texts(lines@),
            crate::lines::words(keys@),
        ),
{
    text.append(word);
    let value: Vec<char> = find_value(lines, keys);
    push_chars(text, value.as_slice());
}

/// Adds a word and the value that a report gives to a key.
fn push_value(text: &mut String, word: &str, lines: &Vec<Vec<char>>, key: &str)
    ensures
        final(text)@ == old(text)@ + word@ + reported(crate::lines::texts(lines@), key@),
{
    let keys: [&str; 1] = [key];
    proof {
        assert(crate::lines::words(keys@) =~= seq![key@]);
    }
    push_reported(text, word, lines, keys.as_slice());
}

/// Adds a word and the endpoint of a report.
fn push_endpoint(text: &mut String, word: &str, lines: &Vec<Vec<char>>)
    ensures
        final(text)@ == old(text)@ + word@ + reported_endpoint(crate::lines::texts(lines@)),
{
    let keys: [&str; 4] = ["destination", "group", "expected_source", "listen"];
    proof {
        assert(crate::lines::words(keys@) =~= seq![
            "destination"@,
            "group"@,
            "expected_source"@,
            "listen"@,
        ]);
    }
    push_reported(text, word, lines, keys.as_slice());
}

/// Adds a word and what is queued by a report.
fn push_queue(text: &mut String, word: &str, lines: &Vec<Vec<char>>)
    ensures
        final(text)@ == old(text)@ + word@ + reported_queue(crate::lines::texts(lines@)),
{
    let keys: [&str; 2] = ["queued_samples", "queued_frames"];
    proof {
        assert(crate::lines::words(keys@) =~= seq!["queued_samples"@, "queued_frames"@]);
    }
    push_reported(text, word, lines, keys.as_slice());
}

/// A word and the value that a report gives to a key.
fn value_text(word: &str, lines: &Vec<Vec<char>>, key: &str) -> (text: String)
    ensures
        text@ == word@ + reported(crate::lines::texts(lines@), key@),
{
    let mut text: String = String::new();
    push_value(&mut text, word, lines, key);
    proof {
        assert(Seq::<char>::empty() + word@ =~= word@);
    }
    text
}

fn waiting_status_lines(params: StreamParameters) -> (shown: [String; 4])
    ensures
        strings(shown@) == waiting_lines(params),
{
    let mut stream: String = "Mode=".to_owned();
    stream.append(
        match params.mode {
            StreamMode::Send => "Send",
            StreamMode::Receive => "Receive",
        },
    );
    stream.append(" Transport=");
    stream.append(
        match params.transport {
            StreamTransport::Unicast => "Unicast",
            StreamTransport::Multicast => "Multicast",
        },
    );
    stream.append(" Ch=");
    push_decimal(&mut stream, params.channels as u64);
    stream.append(" Port=");
    push_decimal(&mut stream, params.port as u64);
    let mut endpoint: String = params.endpoint_label().to_owned();
    endpoint.append("=");
    push_dotted(&mut endpoint, params.ip);
    let shown: [String; 4] = [
        "Runtime: waiting for audio callback".to_owned(),
        stream,
        endpoint,
        "Counters will appear once the host is actively processing audio.".to_owned(),
    ];
    proof {
        assert(strings(shown@) =~= waiting_lines(params));
    }
    shown
}

fn sender_status_lines(lines: &Vec<Vec<char>>) -> (shown: [String; 4])
    ensures
        strings(shown@) == sender_lines(crate::lines::texts(lines@)),
{
    let mut first: String = value_text("Runtime: SEND active=", lines, "active");
    push_value(&mut first, " sr=", lines, "sample_rate");
    push_value(&mut first, " ch=", lines, "channels");
    push_endpoint(&mut first, " endpoint=", lines);
    let second: String = value_text("Transport=", lines, "transport");
    let mut third: String = value_text("Packets sent=", lines, "packets_sent");
    push_value(&mut third, " dropped=", lines, "packets_dropped");
    push_queue(&mut third, " packet_fill_frames=", lines);
    let mut fourth: String = value_text("", lines, "warning");
    proof {
        reveal_strlit("");
        assert(fourth@ =~= reported(crate::lines::texts(lines@), "warning"@));
    }
    if fourth.as_str().unicode_len() == 0 {
        fourth =
        "Receiver-side counters are not shown here. Match channels and sample rate exactly.".to_owned();
    }
    let shown: [String; 4] = [first, second, third, fourth];
    proof {
        assert(strings(shown@) =~= sender_lines(crate::lines::texts(lines@)));
    }
    shown
}

fn receiver_status_lines(lines: &Vec<Vec<char>>) -> (shown: [String; 4])
    ensures
        strings(shown@) == receiver_lines(crate::lines::texts(lines@)),
{
    let mut first: String = value_text("Recv a=", lines, "active");
    push_value(&mut first, " p=", lines, "primed");
    push_value(&mut first, " t=", lines, "transport");
    push_value(&mut first, " sr=", lines, "sample_rate");
    push_value(&mut first, " ch=", lines, "channels");
    push_endpoint(&mut first, " ep=", lines);
    let mut second: String = value_text("rx=", lines, "packets_received");
    push_value(&mut second, " drop=", lines, "packets_dropped");
    push_value(&mut second, " bad=", lines, "packets_invalid");
    push_value(&mut second, " lost=", lines, "packets_lost");
    push_value(&mut second, " ooo=", lines, "packets_out_of_order");
    let mut third: String = value_text("", lines, "warning");
    proof {
        reveal_strlit("");
        assert(third@ =~= reported(crate::lines::texts(lines@), "warning"@));
    }
    if third.as_str().unicode_len() == 0 {
        third = String::new();
        push_queue(&mut third, "q=", lines);
        proof {
            assert(Seq::<char>::empty() + "q="@ =~= "q="@);
        }
        push_value(&mut third, " tgt=", lines, "target_buffer_samples");
        push_value(&mut third, " cb=", lines, "last_callback_frames");
        push_value(&mut third, " underrun=", lines, "underruns");
        push_value(&mut third, " adj=", lines, "drift_corrections");
    }
    let mut fourth: String = value_text("bad_hdr=", lines, "packets_invalid_header");
    push_value(&mut fourth, " bad_fmt=", lines, "packets_invalid_format");
    push_value(&mut fourth, " bad_frames=", lines, "packets_invalid_frame_mismatch");
    push_value(&mut fourth, " last_bad_samples=", lines, "last_invalid_samples");
    let shown: [String; 4] = [first, second, third, fourth];
    proof {
        assert(strings(shown@) =~= receiver_lines(crate::lines::texts(lines@)));
    }
    shown
}

/// What the editor shows of the runtime status: of the report, where there is one.
pub fn runtime_status_lines(params: StreamParameters, content: Option<&str>) -> (shown: [String; 4])
    ensures
        strings(shown@) == runtime_lines(
            params,
            match content {
                None => None,
                Some(text) => Some(text@),
            },
        ),
{
    let text: &str = match content {
        None => {
            return waiting_status_lines(params);
        },
        Some(text) => text,
    };
    let chars: Vec<char> = chars_of(text);
    let lines: Vec<Vec<char>> = split_lines(chars.as_slice());
    let mode: String = value_text("", &lines, "mode");
    proof {
        reveal_strlit("");
        assert(mode@ =~= reported(crate::lines::texts(lines@), "mode"@));
    }
    if same_text(mode.as_str(), "send") {
        sender_status_lines(&lines)
    } else {
        receiver_status_lines(&lines)
    }
}

/// The name of the file that a process writes the runtime status of a stream to.
pub open spec fn status_file_name(process: u32, params: StreamParameters) -> Seq<char> {
    "somethingnet-status-"@ + crate::text::decimal(process as nat) + "-"@ + (match params.mode {
        StreamMode::Send => "send"@,
        StreamMode::Receive => "recv"@,
    }) + "-"@ + crate::text::decimal(params.port as nat) + "-"@ + crate::text::decimal(
        params.channels as nat,
    ) + "-"@ + crate::text::decimal(params.transport.code() as nat) + "-"@ + crate::text::decimal(
        params.ip@[0] as nat,
    ) + "-"@ + crate::text::decimal(params.ip@[1] as nat) + "-"@ + crate::text::decimal(
        (params.ip@[2] * 0x100 + params.ip@[3]) as nat,
    ) + ".txt"@
}

/// Names the file for the runtime status of a stream.
pub fn runtime_status_file(process: u32, params: StreamParameters) -> (name: String)
    ensures
        name@ == status_file_name(process, params),
{
    let mut name: String = "somethingnet-status-".to_owned();
    push_decimal(&mut name, process as u64);
    name.append("-");
    name.append(
        match params.mode {
            StreamMode::Send => "send",
            StreamMode::Receive => "recv",
        },
    );
    name.append("-");
    push_decimal(&mut name, params.port as u64);
    name.append("-");
    push_decimal(&mut name, params.channels as u64);
    name.append("-");
    push_decimal(&mut name, params.transport.as_u8() as u64);
    name.append("-");
    push_decimal(&mut name, params.ip[0] as u64);
    name.append("-");
    push_decimal(&mut name, params.ip[1] as u64);
    name.append("-");
    push_decimal(&mut name, params.ip[2] as u64 * 0x100 + params.ip[3] as u64);
    name.append(".txt");
    name
}

/// Whether the runtime status is to be written again, by the times of the clock in milliseconds.
pub fn status_due(last_ms: u64, now_ms: u64) -> (due: bool)
    ensures
        due == (now_ms >= last_ms + STATUS_INTERVAL_MS),
{
    now_ms.saturating_sub(last_ms) >= STATUS_INTERVAL_MS
}

/// Whether the runtime status is to be written at all, by the setting `SOMETHINGNET_DEBUG_RUNTIME`
/// of the environment.
pub fn runtime_monitor_enabled(setting: Option<&str>) -> (enabled: bool)
    ensures
        enabled == (setting matches Some(value) && value@ == "1"@),
{
    match setting {
        None => false,
        Some(value) => same_text(value, "1"),
    }
}

/// A number by which keys can be told apart.
spec fn mark(key: Seq<char>) -> int {
    let at: int = if key.len() == 15 {
        8
    } else if key.len() == 20 {
        5
    } else if key.len() == 22 {
        16
    } else {
        0
    };
    key.len() * 128 + key[at] as int
}

/// The keys of a sender's report.
spec fn sender_keys(params: StreamParameters) -> Seq<Seq<char>> {
    seq![
        "mode"@,
        "transport"@,
        "active"@,
        "sample_rate"@,
        "channels"@,
        params.endpoint_name(),
        "packets_sent"@,
        "packets_dropped"@,
        "queued_frames"@,
        "warning"@,
    ]
}

/// No key of a sender's report occurs twice, and each can be a key.
proof fn lemma_sender_keys(params: StreamParameters)
    ensures
        sender_keys(params).no_duplicates(),
        forall|i: int|
            0 <= i < 10 ==> crate::lines::fits_key(#[trigger] sender_keys(params)[i]),
        forall|i: int| 5 < i < 10 ==> !is_endpoint_key(#[trigger] sender_keys(params)[i]),
        forall|i: int| 8 < i < 10 ==> !is_queue_key(#[trigger] sender_keys(params)[i]),
{
    let keys = sender_keys(params);
    reveal_strlit("mode");
    reveal_strlit("transport");
    reveal_strlit("active");
    reveal_strlit("sample_rate");
    reveal_strlit("channels");
    reveal_strlit("packets_sent");
    reveal_strlit("packets_dropped");
    reveal_strlit("queued_frames");
    reveal_strlit("warning");
    reveal_strlit("destination");
    reveal_strlit("group");
    reveal_strlit("expected_source");
    reveal_strlit("listen");
    reveal_strlit("queued_samples");
    assert(mark("destination"@) == 1508);
    assert(mark("group"@) == 743);
    assert(mark("expected_source"@) == 2015);
    assert(mark("listen"@) == 876);
    assert(mark("queued_samples"@) == 1905);
    assert(mark("queued_frames"@) == 1777);
    assert(mark(keys[0]) == 621);
    assert(mark(keys[1]) == 1268);
    assert(mark(keys[2]) == 865);
    assert(mark(keys[3]) == 1523);
    assert(mark(keys[4]) == 1123);
    assert(mark(keys[5]) == 1508 || mark(keys[5]) == 743 || mark(keys[5]) == 2015);
    assert(mark(keys[6]) == 1648);
    assert(mark(keys[7]) == 2020);
    assert(mark(keys[8]) == 1777);
    assert(mark(keys[9]) == 1015);
    assert forall|i: int, j: int| 0 <= i < 10 && 0 <= j < 10 && i != j implies mark(keys[i]) != mark(
        keys[j],
    ) by {}
    assert forall|i: int| 5 < i < 10 implies !is_endpoint_key(#[trigger] keys[i]) by {
        assert(mark(keys[i]) != mark("destination"@));
        assert(mark(keys[i]) != mark("group"@));
        assert(mark(keys[i]) != mark("expected_source"@));
        assert(mark(keys[i]) != mark("listen"@));
    }
    assert forall|i: int| 8 < i < 10 implies !is_queue_key(#[trigger] keys[i]) by {
        assert(mark(keys[i]) != mark("queued_samples"@));
        assert(mark(keys[i]) != mark("queued_frames"@));
    }
}

/// The keys of a receiver's report.
spec fn receiver_keys(params: StreamParameters) -> Seq<Seq<char>> {
    seq![
        "mode"@,
        "transport"@,
        "active"@,
        "primed"@,
        "sample_rate"@,
        "channels"@,
        "listen"@,
        params.endpoint_name(),
        "packets_received"@,
        "packets_dropped"@,
        "packets_invalid"@,
        "packets_invalid_header"@,
        "packets_invalid_format"@,
        "packets_invalid_frame_mismatch"@,
        "last_invalid_samples"@,
        "packets_lost"@,
        "packets_out_of_order"@,
        "queued_samples"@,
        "target_buffer_samples"@,
        "last_callback_frames"@,
        "underruns"@,
        "drift_corrections"@,
        "warning"@,
    ]
}

/// No key of a receiver's report occurs twice, and each can be a key.
proof fn lemma_receiver_keys(params: StreamParameters)
    ensures
        receiver_keys(params).no_duplicates(),
        forall|i: int|
            0 <= i < 23 ==> crate::lines::fits_key(#[trigger] receiver_keys(params)[i]),
        forall|i: int| 7 < i < 23 ==> !is_endpoint_key(#[trigger] receiver_keys(params)[i]),
        forall|i: int| 17 < i < 23 ==> !is_queue_key(#[trigger] receiver_keys(params)[i]),
{
    let keys = receiver_keys(params);
    reveal_strlit("mode");
    reveal_strlit("transport");
    reveal_strlit("active");
    reveal_strlit("primed");
    reveal_strlit("sample_rate");
    reveal_strlit("channels");
    reveal_strlit("listen");
    reveal_strlit("packets_received");
    reveal_strlit("packets_dropped");
    reveal_strlit("packets_invalid");
    reveal_strlit("packets_invalid_header");
    reveal_strlit("packets_invalid_format");
    reveal_strlit("packets_invalid_frame_mismatch");
    reveal_strlit("last_invalid_samples");
    reveal_strlit("packets_lost");
    reveal_strlit("packets_out_of_order");
    reveal_strlit("queued_samples");
    reveal_strlit("target_buffer_samples");
    reveal_strlit("last_callback_frames");
    reveal_strlit("underruns");
    reveal_strlit("drift_corrections");
    reveal_strlit("warning");
    reveal_strlit("destination");
    reveal_strlit("group");
    reveal_strlit("expected_source");
    reveal_strlit("queued_frames");
    assert(mark("destination"@) == 1508);
    assert(mark("group"@) == 743);
    assert(mark("expected_source"@) == 2015);
    assert(mark("listen"@) == 876);
    assert(mark("queued_samples"@) == 1905);
    assert(mark("queued_frames"@) == 1777);
    assert(mark(keys[0]) == 621);
    assert(mark(keys[1]) == 1268);
    assert(mark(keys[2]) == 865);
    assert(mark(keys[3]) == 880);
    assert(mark(keys[4]) == 1523);
    assert(mark(keys[5]) == 1123);
    assert(mark(keys[6]) == 876);
    assert(mark(keys[7]) == 1508 || mark(keys[7]) == 743 || mark(keys[7]) == 2015);
    assert(mark(keys[8]) == 2160);
    assert(mark(keys[9]) == 2020);
    assert(mark(keys[10]) == 2025);
    assert(mark(keys[11]) == 2920);
    assert(mark(keys[12]) == 2918);
    assert(mark(keys[13]) == 3952);
    assert(mark(keys[14]) == 2665);
    assert(mark(keys[15]) == 1648);
    assert(mark(keys[16]) == 2676);
    assert(mark(keys[17]) == 1905);
    assert(mark(keys[18]) == 2804);
    assert(mark(keys[19]) == 2659);
    assert(mark(keys[20]) == 1269);
    assert(mark(keys[21]) == 2276);
    assert(mark(keys[22]) == 1015);
    assert forall|i: int, j: int| 0 <= i < 23 && 0 <= j < 23 && i != j implies mark(keys[i]) != mark(
        keys[j],
    ) by {}
    assert forall|i: int| 7 < i < 23 implies !is_endpoint_key(#[trigger] keys[i]) by {
        assert(mark(keys[i]) != mark("destination"@));
        assert(mark(keys[i]) != mark("group"@));
        assert(mark(keys[i]) != mark("expected_source"@));
        assert(mark(keys[i]) != mark("listen"@));
    }
    assert forall|i: int| 17 < i < 23 implies !is_queue_key(#[trigger] keys[i]) by {
        assert(mark(keys[i]) != mark("queued_samples"@));
        assert(mark(keys[i]) != mark("queued_frames"@));
    }
}

/// The values of a sender's report.
spec fn sender_values(
    params: StreamParameters,
    sample_rate_hz: u32,
    status: SenderStatus,
) -> Seq<Seq<char>> {
    seq![
        "send"@,
        transport_word(params.transport),
        flag(status.active),
        crate::text::decimal(sample_rate_hz as nat),
        crate::text::decimal(params.channels as nat),
        crate::text::dotted(params.ip) + ":"@ + crate::text::decimal(params.port as nat),
        crate::text::decimal(status.packets_sent as nat),
        crate::text::decimal(status.packets_dropped as nat),
        crate::text::decimal(status.queued_frames as nat),
        barred(warnings(sample_rate_hz, params.channels, params.clock_reference)),
    ]
}

/// The values of a receiver's report.
spec fn receiver_values(
    params: StreamParameters,
    sample_rate_hz: u32,
    status: ReceiverStatus,
) -> Seq<Seq<char>> {
    seq![
        "receive"@,
        transport_word(params.transport),
        flag(status.active),
        flag(status.primed),
        crate::text::decimal(sample_rate_hz as nat),
        crate::text::decimal(params.channels as nat),
        "0.0.0.0:"@ + crate::text::decimal(params.port as nat),
        crate::text::dotted(params.ip),
        crate::text::decimal(status.packets_received as nat),
        crate::text::decimal(status.packets_dropped as nat),
        crate::text::decimal(status.packets_invalid as nat),
        crate::text::decimal(status.packets_invalid_header as nat),
        crate::text::decimal(status.packets_invalid_format as nat),
        crate::text::decimal(status.packets_invalid_frame_mismatch as nat),
        crate::text::decimal(status.last_invalid_samples as nat),
        crate::text::decimal(status.packets_lost as nat),
        crate::text::decimal(status.packets_out_of_order as nat),
        crate::text::decimal(status.queued_samples as nat),
        crate::text::decimal(status.target_buffer_samples as nat),
        crate::text::decimal(status.last_callback_frames as nat),
        crate::text::decimal(status.underruns as nat),
        crate::text::decimal(status.drift_corrections as nat),
        barred(warnings(sample_rate_hz, params.channels, params.clock_reference)),
    ]
}

/// Numbers, addresses and the words of a report can stand in a line.
proof fn lemma_values_fit_lines(number: nat, ip: [u8; 4], transport: StreamTransport, on: bool)
    ensures
        crate::lines::fits_line(crate::text::decimal(number)),
        crate::lines::fits_line(crate::text::dotted(ip)),
        crate::lines::fits_line(crate::text::dotted(ip) + ":"@ + crate::text::decimal(number)),
        crate::lines::fits_line("0.0.0.0:"@ + crate::text::decimal(number)),
        crate::lines::fits_line(transport_word(transport)),
        crate::lines::fits_line(flag(on)),
        crate::lines::fits_line("send"@),
        crate::lines::fits_line("receive"@),
{
    reveal_strlit(":");
    reveal_strlit("0.0.0.0:");
    reveal_strlit("unicast");
    reveal_strlit("multicast");
    reveal_strlit("1");
    reveal_strlit("0");
    reveal_strlit("send");
    reveal_strlit("receive");
    crate::text::lemma_decimal_digits(number);
    let digits = crate::text::decimal(number);
    assert forall|i: int| 0 <= i < digits.len() implies #[trigger] digits[i] != '\n' && digits[i]
        != '\r' by {
        assert(crate::text::is_digit(digits[i]));
    }
    lemma_dotted_fits_line(ip);
    let address = crate::text::dotted(ip);
    let endpoint = address + ":"@ + digits;
    assert(endpoint.last() == digits.last());
    assert(("0.0.0.0:"@ + digits).last() == digits.last());
}

/// An address can stand in a line.
proof fn lemma_dotted_fits_line(ip: [u8; 4])
    ensures
        crate::lines::fits_line(crate::text::dotted(ip)),
{
    let d0 = crate::text::decimal(ip@[0] as nat);
    let d1 = crate::text::decimal(ip@[1] as nat);
    let d2 = crate::text::decimal(ip@[2] as nat);
    let d3 = crate::text::decimal(ip@[3] as nat);
    crate::text::lemma_decimal_digits(ip@[0] as nat);
    crate::text::lemma_decimal_digits(ip@[1] as nat);
    crate::text::lemma_decimal_digits(ip@[2] as nat);
    crate::text::lemma_decimal_digits(ip@[3] as nat);
    let text = crate::text::dotted(ip);
    let a = d0.len() as int;
    let b = a + 1 + d1.len();
    let c = b + 1 + d2.len();
    assert forall|i: int| 0 <= i < text.len() implies #[trigger] text[i] != '\n' && text[i]
        != '\r' by {
        if i < a {
            assert(crate::text::is_digit(d0[i]));
        } else if a < i < b {
            assert(crate::text::is_digit(d1[i - a - 1]));
        } else if b < i < c {
            assert(crate::text::is_digit(d2[i - b - 1]));
        } else if c < i {
            assert(crate::text::is_digit(d3[i - c - 1]));
        }
    }
}

/// Texts that can stand in a line can do so with bars between them.
proof fn lemma_barred_fits_line(parts: Seq<Seq<char>>)
    requires
        forall|i: int| 0 <= i < parts.len() ==> crate::lines::fits_line(#[trigger] parts[i]),
        forall|i: int| 0 <= i < parts.len() ==> (#[trigger] parts[i]).len() > 0,
    ensures
        crate::lines::fits_line(barred(parts)),
    decreases parts.len(),
{
    if parts.len() > 1 {
        reveal_strlit(" | ");
        lemma_barred_fits_line(parts.drop_last());
        assert(crate::lines::fits_line(parts[parts.len() - 1]));
    } else if parts.len() == 1 {
        assert(crate::lines::fits_line(parts[0]));
    }
}

/// Warnings can stand in a line.
proof fn lemma_warnings_fit_line(sample_rate_hz: u32, channels: u8, clock: ClockReference)
    ensures
        crate::lines::fits_line(barred(warnings(sample_rate_hz, channels, clock))),
{
    reveal_strlit(
        "44.1 kHz is supported but not ST 2110-30 compliant",
    );
    reveal_strlit(
        "More than 8 channels at 48 kHz is outside ST 2110-30 Level A",
    );
    reveal_strlit(
        "More than 4 channels at 96 kHz is outside ST 2110-30 Level AX",
    );
    reveal_strlit(
        "More than 64 channels is transport-only; the VST3 wrapper is capped at 64 channels",
    );
    reveal_strlit(
        "High-channel RTP packets can exceed standard Ethernet MTU; use wired low-jitter networking",
    );
    reveal_strlit(
        "PTP mode currently advertises SDP clock reference and domain only; host clock discipline is still TODO",
    );
    lemma_barred_fits_line(warnings(sample_rate_hz, channels, clock));
}

/// A key that does not occur twice has its own value.
proof fn lemma_key_is_found(keys: Seq<Seq<char>>, values: Seq<Seq<char>>, at: int)
    requires
        keys.len() == values.len(),
        keys.no_duplicates(),
        forall|i: int| 0 <= i < keys.len() ==> crate::lines::fits_key(#[trigger] keys[i]),
        0 <= at < keys.len(),
    ensures
        reported(crate::lines::keyed_lines(keys, values), keys[at]) == values[at],
{
    let wanted = seq![keys[at]];
    assert(wanted[0] == keys[at]);
    crate::lines::law_value_is_found(keys, values, wanted, at);
}

/// The queue is reported in one unit.
proof fn lemma_queue_is_found(keys: Seq<Seq<char>>, values: Seq<Seq<char>>, at: int)
    requires
        keys.len() == values.len(),
        keys.no_duplicates(),
        forall|i: int| 0 <= i < keys.len() ==> crate::lines::fits_key(#[trigger] keys[i]),
        0 <= at < keys.len(),
        is_queue_key(keys[at]),
        forall|i: int| at < i < keys.len() ==> !is_queue_key(#[trigger] keys[i]),
    ensures
        reported_queue(crate::lines::keyed_lines(keys, values)) == values[at],
{
    let wanted = seq!["queued_samples"@, "queued_frames"@];
    assert(wanted[0] == "queued_samples"@ && wanted[1] == "queued_frames"@);
    crate::lines::law_value_is_found(keys, values, wanted, at);
}

/// The endpoint is what is reported last of one.
proof fn lemma_endpoint_is_found(
    keys: Seq<Seq<char>>,
    values: Seq<Seq<char>>,
    params: StreamParameters,
    at: int,
)
    requires
        keys.len() == values.len(),
        keys.no_duplicates(),
        forall|i: int| 0 <= i < keys.len() ==> crate::lines::fits_key(#[trigger] keys[i]),
        0 <= at < keys.len(),
        keys[at] == params.endpoint_name(),
        forall|i: int| at < i < keys.len() ==> !is_endpoint_key(#[trigger] keys[i]),
    ensures
        reported_endpoint(crate::lines::keyed_lines(keys, values)) == values[at],
{
    let wanted = seq!["destination"@, "group"@, "expected_source"@, "listen"@];
    assert(wanted[0] == "destination"@ && wanted[1] == "group"@ && wanted[2] == "expected_source"@
        && wanted[3] == "listen"@);
    crate::lines::law_value_is_found(keys, values, wanted, at);
}

/// Whether a key names an endpoint.
spec fn is_endpoint_key(key: Seq<char>) -> bool {
    key == "destination"@ || key == "group"@ || key == "expected_source"@ || key == "listen"@
}

/// Whether a key names what is queued.
spec fn is_queue_key(key: Seq<char>) -> bool {
    key == "queued_samples"@ || key == "queued_frames"@
}

/// The values that a sender's report gives.
proof fn lemma_sender_values(params: StreamParameters, sample_rate_hz: u32, status: SenderStatus)
    ensures
        ({
            let report = sender_report(params, sample_rate_hz, status);
            &&& crate::lines::lines_of(crate::lines::joined_lines(report)) == report
            &&& reported(report, "mode"@) == "send"@
            &&& reported(report, "transport"@) == transport_word(params.transport)
            &&& reported(report, "active"@) == flag(status.active)
            &&& reported(report, "sample_rate"@) == crate::text::decimal(sample_rate_hz as nat)
            &&& reported(report, "channels"@) == crate::text::decimal(params.channels as nat)
            &&& reported_endpoint(report) == crate::text::dotted(params.ip) + ":"@ + crate::text::decimal(params.port as nat)
            &&& reported(report, "packets_sent"@) == crate::text::decimal(status.packets_sent as nat)
            &&& reported(report, "packets_dropped"@) == crate::text::decimal(status.packets_dropped as nat)
            &&& reported_queue(report) == crate::text::decimal(status.queued_frames as nat)
            &&& reported(report, "warning"@) == barred(warnings(sample_rate_hz, params.channels, params.clock_reference))
        }),
{
    let keys = sender_keys(params);
    let values = sender_values(params, sample_rate_hz, status);
    let report = sender_report(params, sample_rate_hz, status);
    assert(report =~= crate::lines::keyed_lines(keys, values));
    lemma_sender_keys(params);
    lemma_warnings_fit_line(sample_rate_hz, params.channels, params.clock_reference);
    lemma_values_fit_lines(sample_rate_hz as nat, params.ip, params.transport, status.active);
    lemma_values_fit_lines(params.channels as nat, params.ip, params.transport, status.active);
    lemma_values_fit_lines(status.packets_sent as nat, params.ip, params.transport, status.active);
    lemma_values_fit_lines(status.packets_dropped as nat, params.ip, params.transport, status.active);
    lemma_values_fit_lines(status.queued_frames as nat, params.ip, params.transport, status.active);
    lemma_values_fit_lines(params.port as nat, params.ip, params.transport, status.active);
    crate::lines::law_report_round_trip(keys, values);
    lemma_key_is_found(keys, values, 0);
    lemma_key_is_found(keys, values, 1);
    lemma_key_is_found(keys, values, 2);
    lemma_key_is_found(keys, values, 3);
    lemma_key_is_found(keys, values, 4);
    lemma_endpoint_is_found(keys, values, params, 5);
    lemma_key_is_found(keys, values, 6);
    lemma_key_is_found(keys, values, 7);
    lemma_queue_is_found(keys, values, 8);
    lemma_key_is_found(keys, values, 9);
}

/// What a sender reports is what the editor shows.
pub proof fn law_editor_shows_what_a_sender_reports(
    shown_for: StreamParameters,
    params: StreamParameters,
    sample_rate_hz: u32,
    status: SenderStatus,
)
    ensures
        ({
            let warning = barred(
                warnings(sample_rate_hz, params.channels, params.clock_reference),
            );
            runtime_lines(
                shown_for,
                Some(crate::lines::joined_lines(sender_report(params, sample_rate_hz, status))),
            ) == seq![
                "Runtime: SEND active="@ + flag(status.active) + " sr="@ + crate::text::decimal(sample_rate_hz as nat) + " ch="@ + crate::text::decimal(params.channels as nat) + " endpoint="@ + (crate::text::dotted(params.ip) + ":"@ + crate::text::decimal(params.port as nat)),
                "Transport="@ + transport_word(params.transport),
                "Packets sent="@ + crate::text::decimal(status.packets_sent as nat) + " dropped="@ + crate::text::decimal(status.packets_dropped as nat) + " packet_fill_frames="@ + crate::text::decimal(status.queued_frames as nat),
                if warning.len() == 0 {
                    "Receiver-side counters are not shown here. Match channels and sample rate exactly."@
                } else {
                    warning
                },
            ]
        }),
{
    lemma_sender_values(params, sample_rate_hz, status);
}

/// The values that a receiver's report gives.
proof fn lemma_receiver_values(params: StreamParameters, sample_rate_hz: u32, status: ReceiverStatus)
    ensures
        ({
            let report = receiver_report(params, sample_rate_hz, status);
            &&& crate::lines::lines_of(crate::lines::joined_lines(report)) == report
            &&& reported(report, "mode"@) == "receive"@
            &&& reported(report, "transport"@) == transport_word(params.transport)
            &&& reported(report, "active"@) == flag(status.active)
            &&& reported(report, "primed"@) == flag(status.primed)
            &&& reported(report, "sample_rate"@) == crate::text::decimal(sample_rate_hz as nat)
            &&& reported(report, "channels"@) == crate::text::decimal(params.channels as nat)
            &&& reported_endpoint(report) == crate::text::dotted(params.ip)
            &&& reported(report, "packets_received"@) == crate::text::decimal(status.packets_received as nat)
            &&& reported(report, "packets_dropped"@) == crate::text::decimal(status.packets_dropped as nat)
            &&& reported(report, "packets_invalid"@) == crate::text::decimal(status.packets_invalid as nat)
            &&& reported(report, "packets_invalid_header"@) == crate::text::decimal(status.packets_invalid_header as nat)
            &&& reported(report, "packets_invalid_format"@) == crate::text::decimal(status.packets_invalid_format as nat)
            &&& reported(report, "packets_invalid_frame_mismatch"@) == crate::text::decimal(status.packets_invalid_frame_mismatch as nat)
            &&& reported(report, "last_invalid_samples"@) == crate::text::decimal(status.last_invalid_samples as nat)
            &&& reported(report, "packets_lost"@) == crate::text::decimal(status.packets_lost as nat)
            &&& reported(report, "packets_out_of_order"@) == crate::text::decimal(status.packets_out_of_order as nat)
            &&& reported_queue(report) == crate::text::decimal(status.queued_samples as nat)
            &&& reported(report, "target_buffer_samples"@) == crate::text::decimal(status.target_buffer_samples as nat)
            &&& reported(report, "last_callback_frames"@) == crate::text::decimal(status.last_callback_frames as nat)
            &&& reported(report, "underruns"@) == crate::text::decimal(status.underruns as nat)
            &&& reported(report, "drift_corrections"@) == crate::text::decimal(status.drift_corrections as nat)
            &&& reported(report, "warning"@) == barred(warnings(sample_rate_hz, params.channels, params.clock_reference))
        }),
{
    let keys = receiver_keys(params);
    let values = receiver_values(params, sample_rate_hz, status);
    let report = receiver_report(params, sample_rate_hz, status);
    assert(report =~= crate::lines::keyed_lines(keys, values));
    lemma_receiver_keys(params);
    lemma_warnings_fit_line(sample_rate_hz, params.channels, params.clock_reference);
    lemma_values_fit_lines(sample_rate_hz as nat, params.ip, params.transport, status.active);
    lemma_values_fit_lines(params.channels as nat, params.ip, params.transport, status.active);
    lemma_values_fit_lines(status.packets_received as nat, params.ip, params.transport, status.active);
    lemma_values_fit_lines(status.packets_dropped as nat, params.ip, params.transport, status.active);
    lemma_values_fit_lines(status.packets_invalid as nat, params.ip, params.transport, status.active);
    lemma_values_fit_lines(status.packets_invalid_header as nat, params.ip, params.transport, status.active);
    lemma_values_fit_lines(status.packets_invalid_format as nat, params.ip, params.transport, status.active);
    lemma_values_fit_lines(status.packets_invalid_frame_mismatch as nat, params.ip, params.transport, status.active);
    lemma_values_fit_lines(status.last_invalid_samples as nat, params.ip, params.transport, status.active);
    lemma_values_fit_lines(status.packets_lost as nat, params.ip, params.transport, status.active);
    lemma_values_fit_lines(status.packets_out_of_order as nat, params.ip, params.transport, status.active);
    lemma_values_fit_lines(status.queued_samples as nat, params.ip, params.transport, status.active);
    lemma_values_fit_lines(status.target_buffer_samples as nat, params.ip, params.transport, status.active);
    lemma_values_fit_lines(status.last_callback_frames as nat, params.ip, params.transport, status.active);
    lemma_values_fit_lines(status.underruns as nat, params.ip, params.transport, status.active);
    lemma_values_fit_lines(status.drift_corrections as nat, params.ip, params.transport, status.active);
    lemma_values_fit_lines(params.port as nat, params.ip, params.transport, status.active);
    lemma_values_fit_lines(params.port as nat, params.ip, params.transport, status.primed);
    crate::lines::law_report_round_trip(keys, values);
    lemma_key_is_found(keys, values, 0);
    lemma_key_is_found(keys, values, 1);
    lemma_key_is_found(keys, values, 2);
    lemma_key_is_found(keys, values, 3);
    lemma_key_is_found(keys, values, 4);
    lemma_key_is_found(keys, values, 5);
    lemma_endpoint_is_found(keys, values, params, 7);
    lemma_key_is_found(keys, values, 8);
    lemma_key_is_found(keys, values, 9);
    lemma_key_is_found(keys, values, 10);
    lemma_key_is_found(keys, values, 11);
    lemma_key_is_found(keys, values, 12);
    lemma_key_is_found(keys, values, 13);
    lemma_key_is_found(keys, values, 14);
    lemma_key_is_found(keys, values, 15);
    lemma_key_is_found(keys, values, 16);
    lemma_queue_is_found(keys, values, 17);
    lemma_key_is_found(keys, values, 18);
    lemma_key_is_found(keys, values, 19);
    lemma_key_is_found(keys, values, 20);
    lemma_key_is_found(keys, values, 21);
    lemma_key_is_found(keys, values, 22);
}

/// What a receiver reports is what the editor shows.
pub proof fn law_editor_shows_what_a_receiver_reports(
    shown_for: StreamParameters,
    params: StreamParameters,
    sample_rate_hz: u32,
    status: ReceiverStatus,
)
    ensures
        ({
            let warning = barred(
                warnings(sample_rate_hz, params.channels, params.clock_reference),
            );
            runtime_lines(
                shown_for,
                Some(crate::lines::joined_lines(receiver_report(params, sample_rate_hz, status))),
            ) == seq![
                "Recv a="@ + flag(status.active) + " p="@ + flag(status.primed) + " t="@ + transport_word(params.transport) + " sr="@ + crate::text::decimal(sample_rate_hz as nat) + " ch="@ + crate::text::decimal(params.channels as nat) + " ep="@ + crate::text::dotted(params.ip),
                "rx="@ + crate::text::decimal(status.packets_received as nat) + " drop="@ + crate::text::decimal(status.packets_dropped as nat) + " bad="@ + crate::text::decimal(status.packets_invalid as nat) + " lost="@ + crate::text::decimal(status.packets_lost as nat) + " ooo="@ + crate::text::decimal(status.packets_out_of_order as nat),
                if warning.len() == 0 {
                    "q="@ + crate::text::decimal(status.queued_samples as nat) + " tgt="@ + crate::text::decimal(status.target_buffer_samples as nat) + " cb="@ + crate::text::decimal(status.last_callback_frames as nat) + " underrun="@ + crate::text::decimal(status.underruns as nat) + " adj="@ + crate::text::decimal(status.drift_corrections as nat)
                } else {
                    warning
                },
                "bad_hdr="@ + crate::text::decimal(status.packets_invalid_header as nat) + " bad_fmt="@ + crate::text::decimal(status.packets_invalid_format as nat) + " bad_frames="@ + crate::text::decimal(status.packets_invalid_frame_mismatch as nat) + " last_bad_samples="@ + crate::text::decimal(status.last_invalid_samples as nat),
            ]
        }),
{
    lemma_receiver_values(params, sample_rate_hz, status);
    reveal_strlit("send");
    reveal_strlit("receive");
}

/// The words of a report: one for what is on, and the transports by their names.
pub proof fn law_words_of_a_report(params: StreamParameters)
    ensures
        flag(true) == "1"@ && flag(false) == "0"@,
        transport_word(StreamTransport::Unicast) == "unicast"@,
        transport_word(StreamTransport::Multicast) == "multicast"@,
        params.transport == StreamTransport::Multicast ==> params.endpoint_name() == "group"@,
        params.transport == StreamTransport::Unicast && params.mode == StreamMode::Send
            ==> params.endpoint_name() == "destination"@,
        params.transport == StreamTransport::Unicast && params.mode == StreamMode::Receive
            ==> params.endpoint_name() == "expected_source"@,
{
}

/// Each thing that is to be said about a stream is said exactly where it applies, and nothing else is.
/// Bars stand between them.
pub proof fn law_every_warning_is_given(
    sample_rate_hz: u32,
    channels: u8,
    clock: ClockReference,
)
    ensures
        ({
            let list = warnings(sample_rate_hz, channels, clock);
            let rate = sample_rate_hz == 44_100;
            let many = sample_rate_hz == 48_000 && channels > 8;
            let many_fast = sample_rate_hz == 96_000 && channels > 4;
            let wide = channels > 64;
            let large = channels >= 64 && sample_rate_hz >= 48_000;
            let disciplined = clock == ClockReference::Ptp;
            &&& list.len() == counted_if(rate) + counted_if(many) + counted_if(many_fast)
                + counted_if(wide) + counted_if(large) + counted_if(disciplined)
            &&& rate ==> list[0] == "44.1 kHz is supported but not ST 2110-30 compliant"@
            &&& many ==> list[0] == "More than 8 channels at 48 kHz is outside ST 2110-30 Level A"@
            &&& many_fast ==> list[0]
                == "More than 4 channels at 96 kHz is outside ST 2110-30 Level AX"@
            &&& wide ==> list[(counted_if(rate) + counted_if(many) + counted_if(many_fast)) as int]
                == "More than 64 channels is transport-only; the VST3 wrapper is capped at 64 channels"@
            &&& large ==> list[(counted_if(many) + counted_if(many_fast) + counted_if(wide)) as int]
                == "High-channel RTP packets can exceed standard Ethernet MTU; use wired low-jitter networking"@
            &&& disciplined ==> list.last()
                == "PTP mode currently advertises SDP clock reference and domain only; host clock discipline is still TODO"@
        }),
{
}

/// One for what holds.
pub open spec fn counted_if(yes: bool) -> nat {
    if yes {
        1
    } else {
        0
    }
}

/// Texts are put behind each other with a bar between them.
pub proof fn law_texts_are_barred(parts: Seq<Seq<char>>, more: Seq<char>)
    ensures
        barred(Seq::empty()) == Seq::<char>::empty(),
        parts.len() == 0 ==> barred(parts.push(more)) == more,
        parts.len() > 0 ==> barred(parts.push(more)) == barred(parts) + " | "@ + more,
{
    assert(parts.push(more).drop_last() =~= parts);
}

/// Lines, each ended with a carriage return and a line feed.
pub open spec fn ended_lines(lines: Seq<Seq<char>>) -> Seq<char>
    decreases lines.len(),
{
    if lines.len() == 0 {
        Seq::empty()
    } else {
        ended_lines(lines.drop_last()) + lines.last() + "\r\n"@
    }
}

/// One line more.
proof fn lemma_line_is_ended(lines: Seq<Seq<char>>, line: Seq<char>)
    ensures
        ended_lines(lines.push(line)) == ended_lines(lines) + line + "\r\n"@,
{
    assert(lines.push(line).drop_last() =~= lines);
}

/// The lines of a session description, in the order of the standard: where the stream comes from and
/// goes to, that it is 24-bit linear PCM of payload type 96 at its rate and with its channels, in
/// packets of a millisecond, and which clock it follows.
#[verifier::spinoff_prover]
#[verifier::rlimit(60)]
pub proof fn law_sessions_are_described_line_by_line(
    local_ip: [u8; 4],
    destination: Endpoint,
    level: StreamLevel,
    params: StreamParameters,
)
    ensures
        session_description(local_ip, destination, level, params) == ended_lines(
            seq![
                "v=0"@,
                "o=- 0 0 IN IP4 "@ + crate::text::dotted(local_ip),
                "s=SomeNET Sender"@,
                "c=IN IP4 "@ + crate::text::dotted(destination.ip),
                "t=0 0"@,
                "m=audio "@ + crate::text::decimal(destination.port as nat) + " RTP/AVP 96"@,
                "a=rtpmap:96 L24/"@ + crate::text::decimal(level.rate() as nat) + "/"@
                    + crate::text::decimal(params.channels as nat),
                "a=fmtp:96 channel-order=SMPTE2110.(U"@ + crate::text::two_digits(
                    params.channels as nat,
                ) + ")"@,
                "a=ptime:1"@,
                "a=maxptime:1"@,
                "a=sendonly"@,
                if params.clock_reference == ClockReference::Ptp {
                    "a=ts-refclk:ptp=IEEE1588-2008:traceable"@
                } else {
                    "a=ts-refclk:local"@
                },
                "a=mediaclk:direct=0"@,
            ],
        ) + (if params.clock_reference == ClockReference::Ptp {
            "a=x-somenet-ptp-domain:"@ + crate::text::decimal(params.ptp_domain as nat) + "\r\n"@
        } else {
            Seq::empty()
        }) + "a=x-conformance:"@ + (match level {
            StreamLevel::A48k => "Level A"@,
            StreamLevel::Legacy44k1 => "Non-standard 44.1 kHz"@,
            StreamLevel::AX96k => "Level AX"@,
        }) + "\r\n"@,
{
    reveal_strlit("\r\n");
    reveal_strlit("v=0");
    reveal_strlit("o=- 0 0 IN IP4 ");
    reveal_strlit("s=SomeNET Sender");
    reveal_strlit("c=IN IP4 ");
    reveal_strlit("t=0 0");
    reveal_strlit("m=audio ");
    reveal_strlit(" RTP/AVP 96");
    reveal_strlit("a=rtpmap:96 L24/");
    reveal_strlit("/");
    reveal_strlit("a=fmtp:96 channel-order=SMPTE2110.(U");
    reveal_strlit(")");
    reveal_strlit("U");
    reveal_strlit("a=ptime:1");
    reveal_strlit("a=maxptime:1");
    reveal_strlit("a=sendonly");
    reveal_strlit("a=ts-refclk:local");
    reveal_strlit("a=ts-refclk:local\r\n");
    reveal_strlit("a=ts-refclk:ptp=IEEE1588-2008:traceable");
    reveal_strlit("a=ts-refclk:ptp=IEEE1588-2008:traceable\r\n");
    reveal_strlit("a=mediaclk:direct=0");
    reveal_strlit("a=mediaclk:direct=0\r\n");
    reveal_strlit("v=0\r\no=- 0 0 IN IP4 ");
    reveal_strlit("\r\ns=SomeNET Sender\r\nc=IN IP4 ");
    reveal_strlit("\r\nt=0 0\r\nm=audio ");
    reveal_strlit(" RTP/AVP ");
    reveal_strlit("\r\na=rtpmap:");
    reveal_strlit(" L24/");
    reveal_strlit("\r\na=fmtp:");
    reveal_strlit(" channel-order=SMPTE2110.(");
    reveal_strlit(")\r\na=ptime:");
    reveal_strlit("\r\na=maxptime:");
    reveal_strlit("\r\na=sendonly\r\n");
    let end = "\r\n"@;
    let local = crate::text::dotted(local_ip);
    let remote = crate::text::dotted(destination.ip);
    let port = crate::text::decimal(destination.port as nat);
    let rate = crate::text::decimal(level.rate() as nat);
    let channels = crate::text::decimal(params.channels as nat);
    let group = crate::text::two_digits(params.channels as nat);
    let kind = crate::text::decimal(96);
    let one = crate::text::decimal(1);
    reveal_with_fuel(crate::text::decimal, 3);
    assert(kind =~= seq!['9', '6']);
    assert(one =~= seq!['1']);
    let clock = if params.clock_reference == ClockReference::Ptp {
        "a=ts-refclk:ptp=IEEE1588-2008:traceable"@
    } else {
        "a=ts-refclk:local"@
    };
    let l0 = Seq::<Seq<char>>::empty();
    let l1 = l0.push("v=0"@);
    let l2 = l1.push("o=- 0 0 IN IP4 "@ + local);
    let l3 = l2.push("s=SomeNET Sender"@);
    let l4 = l3.push("c=IN IP4 "@ + remote);
    let l5 = l4.push("t=0 0"@);
    let l6 = l5.push("m=audio "@ + port + " RTP/AVP 96"@);
    let l7 = l6.push("a=rtpmap:96 L24/"@ + rate + "/"@ + channels);
    let l8 = l7.push("a=fmtp:96 channel-order=SMPTE2110.(U"@ + group + ")"@);
    let l9 = l8.push("a=ptime:1"@);
    let l10 = l9.push("a=maxptime:1"@);
    let l11 = l10.push("a=sendonly"@);
    let l12 = l11.push(clock);
    let l13 = l12.push("a=mediaclk:direct=0"@);
    lemma_line_is_ended(l0, "v=0"@);
    lemma_line_is_ended(l1, "o=- 0 0 IN IP4 "@ + local);
    lemma_line_is_ended(l2, "s=SomeNET Sender"@);
    lemma_line_is_ended(l3, "c=IN IP4 "@ + remote);
    lemma_line_is_ended(l4, "t=0 0"@);
    lemma_line_is_ended(l5, "m=audio "@ + port + " RTP/AVP 96"@);
    lemma_line_is_ended(l6, "a=rtpmap:96 L24/"@ + rate + "/"@ + channels);
    lemma_line_is_ended(l7, "a=fmtp:96 channel-order=SMPTE2110.(U"@ + group + ")"@);
    lemma_line_is_ended(l8, "a=ptime:1"@);
    lemma_line_is_ended(l9, "a=maxptime:1"@);
    lemma_line_is_ended(l10, "a=sendonly"@);
    lemma_line_is_ended(l11, clock);
    lemma_line_is_ended(l12, "a=mediaclk:direct=0"@);
    let s1 = "v=0\r\no=- 0 0 IN IP4 "@ + local;
    assert(s1 + end =~= ended_lines(l2)) by {
        assert(ended_lines(l1) =~= "v=0"@ + end);
    }
    let p3 = "\r\ns=SomeNET Sender\r\nc=IN IP4 "@;
    assert(p3 =~= end + ("s=SomeNET Sender"@ + end) + "c=IN IP4 "@);
    let s3 = s1 + p3 + remote;
    lemma_piece(s1, p3, remote, end, "s=SomeNET Sender"@, "c=IN IP4 "@, ended_lines(l2), ended_lines(l3), ended_lines(l4));
    let p5 = "\r\nt=0 0\r\nm=audio "@;
    assert(p5 =~= end + ("t=0 0"@ + end) + "m=audio "@);
    let rest6 = port + " RTP/AVP 96"@;
    assert("m=audio "@ + port + " RTP/AVP 96"@ =~= "m=audio "@ + rest6);
    let s5 = s3 + p5 + rest6;
    lemma_piece(s3, p5, rest6, end, "t=0 0"@, "m=audio "@, ended_lines(l4), ended_lines(l5), ended_lines(l6));
    assert(s3 + p5 + port + " RTP/AVP "@ + kind =~= s5) by {
        assert(" RTP/AVP "@ + kind =~= " RTP/AVP 96"@);
    }
    let rest7 = rate + "/"@ + channels;
    let p7 = "\r\na=rtpmap:"@ + kind + " L24/"@;
    assert(p7 =~= end + "a=rtpmap:96 L24/"@);
    assert("a=rtpmap:96 L24/"@ + rate + "/"@ + channels =~= "a=rtpmap:96 L24/"@ + rest7);
    let s7 = s5 + p7 + rest7;
    lemma_last_piece(s5, p7, rest7, end, "a=rtpmap:96 L24/"@, ended_lines(l6), ended_lines(l7));
    assert(s5 + "\r\na=rtpmap:"@ + kind + " L24/"@ + rate + "/"@ + channels =~= s7);
    let rest8 = group + ")"@;
    let p8 = "\r\na=fmtp:"@ + kind + " channel-order=SMPTE2110.("@ + "U"@;
    assert(p8 =~= end + "a=fmtp:96 channel-order=SMPTE2110.(U"@);
    assert("a=fmtp:96 channel-order=SMPTE2110.(U"@ + group + ")"@
        =~= "a=fmtp:96 channel-order=SMPTE2110.(U"@ + rest8);
    let s8 = s7 + p8 + rest8;
    lemma_last_piece(s7, p8, rest8, end, "a=fmtp:96 channel-order=SMPTE2110.(U"@, ended_lines(l7), ended_lines(l8));
    let tail = end + "a=ptime:1"@ + end + "a=maxptime:1"@ + end + "a=sendonly"@ + end;
    assert(")\r\na=ptime:"@ + one + "\r\na=maxptime:"@ + one + "\r\na=sendonly\r\n"@ =~= ")"@ + tail);
    assert(s8 + tail =~= ended_lines(l11));
    let order = channel_group(params.channels);
    assert(order == "U"@ + group);
    let s11 = s7 + "\r\na=fmtp:"@ + kind + " channel-order=SMPTE2110.("@ + order
        + ")\r\na=ptime:"@ + one + "\r\na=maxptime:"@ + one + "\r\na=sendonly\r\n"@;
    assert(s11 =~= s7 + p8 + group + (")\r\na=ptime:"@ + one + "\r\na=maxptime:"@ + one
        + "\r\na=sendonly\r\n"@));
    assert(s11 =~= s8 + tail);
    assert(params.clock_reference.sdp_line() =~= clock + end);
    assert(s11 + params.clock_reference.sdp_line() =~= ended_lines(l12));
    assert("a=mediaclk:direct=0\r\n"@ =~= "a=mediaclk:direct=0"@ + end);
    assert(s11 + params.clock_reference.sdp_line() + "a=mediaclk:direct=0\r\n"@ =~= ended_lines(l13));
    assert(l13 =~= seq![
        "v=0"@,
        "o=- 0 0 IN IP4 "@ + local,
        "s=SomeNET Sender"@,
        "c=IN IP4 "@ + remote,
        "t=0 0"@,
        "m=audio "@ + port + " RTP/AVP 96"@,
        "a=rtpmap:96 L24/"@ + rate + "/"@ + channels,
        "a=fmtp:96 channel-order=SMPTE2110.(U"@ + group + ")"@,
        "a=ptime:1"@,
        "a=maxptime:1"@,
        "a=sendonly"@,
        clock,
        "a=mediaclk:direct=0"@,
    ]);
}

/// A piece that ends a line, holds another, and begins a third, with what the third goes on with.
proof fn lemma_piece(
    before: Seq<char>,
    piece: Seq<char>,
    rest: Seq<char>,
    end: Seq<char>,
    whole: Seq<char>,
    begun: Seq<char>,
    first: Seq<char>,
    second: Seq<char>,
    third: Seq<char>,
)
    requires
        before + end == first,
        piece == end + (whole + end) + begun,
        second == first + whole + end,
        third == second + (begun + rest) + end,
    ensures
        before + piece + rest + end == third,
{
    assert(before + piece + rest + end =~= before + end + whole + end + (begun + rest) + end);
}

/// A piece that ends a line and begins another, with what that goes on with.
proof fn lemma_last_piece(
    before: Seq<char>,
    piece: Seq<char>,
    rest: Seq<char>,
    end: Seq<char>,
    begun: Seq<char>,
    first: Seq<char>,
    second: Seq<char>,
)
    requires
        before + end == first,
        piece == end + begun,
        second == first + (begun + rest) + end,
    ensures
        before + piece + rest + end == second,
{
    assert(before + piece + rest + end =~= before + end + (begun + rest) + end);
}

/// The name of a status file tells the process, the mode, the port, the channels, the transport and the
/// address apart.
pub proof fn law_status_files_are_named_by_their_stream(process: u32, params: StreamParameters)
    ensures
        ({
            let name = status_file_name(process, params);
            let mode = if params.mode == StreamMode::Send {
                "send"@
            } else {
                "recv"@
            };
            let front = "somethingnet-status-"@ + crate::text::decimal(process as nat) + "-"@ + mode
                + "-"@ + crate::text::decimal(params.port as nat) + "-"@ + crate::text::decimal(
                params.channels as nat,
            );
            let transport = if params.transport == StreamTransport::Multicast {
                1nat
            } else {
                0
            };
            name == front + "-"@ + crate::text::decimal(transport) + "-"@ + crate::text::decimal(
                params.ip@[0] as nat,
            ) + "-"@ + crate::text::decimal(params.ip@[1] as nat) + "-"@ + crate::text::decimal(
                (256 * params.ip@[2] + params.ip@[3]) as nat,
            ) + ".txt"@
        }),
{
}

/// Before there is a report, the editor tells what is set.
pub proof fn law_editors_wait_for_a_report(params: StreamParameters)
    ensures
        ({
            let lines = runtime_lines(params, None);
            let mode = if params.mode == StreamMode::Send {
                "Send"@
            } else {
                "Receive"@
            };
            let transport = if params.transport == StreamTransport::Multicast {
                "Multicast"@
            } else {
                "Unicast"@
            };
            &&& lines.len() == 4
            &&& lines[1] == "Mode="@ + mode + " Transport="@ + transport + " Ch="@
                + crate::text::decimal(params.channels as nat) + " Port="@ + crate::text::decimal(
                params.port as nat,
            )
            &&& lines[2] == params.endpoint_name() + "="@ + crate::text::dotted(params.ip)
        }),
{
}

/// A channel group is a U and the channels, with at least two digits.
pub proof fn law_channel_groups_are_counted(channels: u8)
    ensures
        channel_group(channels) == "U"@ + crate::text::two_digits(channels as nat),
{
}

/// A sender's report gives each of its figures under its own name, and is read back line by line.
pub proof fn law_a_sender_reports_its_status(params: StreamParameters, sample_rate_hz: u32, status: SenderStatus)
    ensures
        ({
            let report = sender_report(params, sample_rate_hz, status);
            &&& crate::lines::lines_of(crate::lines::joined_lines(report)) == report
            &&& reported(report, "mode"@) == "send"@
            &&& reported(report, "transport"@) == transport_word(params.transport)
            &&& reported(report, "active"@) == flag(status.active)
            &&& reported(report, "sample_rate"@) == crate::text::decimal(sample_rate_hz as nat)
            &&& reported(report, "channels"@) == crate::text::decimal(params.channels as nat)
            &&& reported_endpoint(report) == crate::text::dotted(params.ip) + ":"@ + crate::text::decimal(params.port as nat)
            &&& reported(report, "packets_sent"@) == crate::text::decimal(status.packets_sent as nat)
            &&& reported(report, "packets_dropped"@) == crate::text::decimal(status.packets_dropped as nat)
            &&& reported_queue(report) == crate::text::decimal(status.queued_frames as nat)
            &&& reported(report, "warning"@) == barred(warnings(sample_rate_hz, params.channels, params.clock_reference))
        }),
{
    lemma_sender_values(params, sample_rate_hz, status);
}

/// A receiver's report gives each of its figures under its own name, and is read back line by line.
pub proof fn law_a_receiver_reports_its_status(params: StreamParameters, sample_rate_hz: u32, status: ReceiverStatus)
    ensures
        ({
            let report = receiver_report(params, sample_rate_hz, status);
            &&& crate::lines::lines_of(crate::lines::joined_lines(report)) == report
            &&& reported(report, "mode"@) == "receive"@
            &&& reported(report, "transport"@) == transport_word(params.transport)
            &&& reported(report, "active"@) == flag(status.active)
            &&& reported(report, "primed"@) == flag(status.primed)
            &&& reported(report, "sample_rate"@) == crate::text::decimal(sample_rate_hz as nat)
            &&& reported(report, "channels"@) == crate::text::decimal(params.channels as nat)
            &&& reported_endpoint(report) == crate::text::dotted(params.ip)
            &&& reported(report, "packets_received"@) == crate::text::decimal(status.packets_received as nat)
            &&& reported(report, "packets_dropped"@) == crate::text::decimal(status.packets_dropped as nat)
            &&& reported(report, "packets_invalid"@) == crate::text::decimal(status.packets_invalid as nat)
            &&& reported(report, "packets_invalid_header"@) == crate::text::decimal(status.packets_invalid_header as nat)
            &&& reported(report, "packets_invalid_format"@) == crate::text::decimal(status.packets_invalid_format as nat)
            &&& reported(report, "packets_invalid_frame_mismatch"@) == crate::text::decimal(status.packets_invalid_frame_mismatch as nat)
            &&& reported(report, "last_invalid_samples"@) == crate::text::decimal(status.last_invalid_samples as nat)
            &&& reported(report, "packets_lost"@) == crate::text::decimal(status.packets_lost as nat)
            &&& reported(report, "packets_out_of_order"@) == crate::text::decimal(status.packets_out_of_order as nat)
            &&& reported_queue(report) == crate::text::decimal(status.queued_samples as nat)
            &&& reported(report, "target_buffer_samples"@) == crate::text::decimal(status.target_buffer_samples as nat)
            &&& reported(report, "last_callback_frames"@) == crate::text::decimal(status.last_callback_frames as nat)
            &&& reported(report, "underruns"@) == crate::text::decimal(status.underruns as nat)
            &&& reported(report, "drift_corrections"@) == crate::text::decimal(status.drift_corrections as nat)
            &&& reported(report, "warning"@) == barred(warnings(sample_rate_hz, params.channels, params.clock_reference))
        }),
{
    lemma_receiver_values(params, sample_rate_hz, status);
}

} // verus!
