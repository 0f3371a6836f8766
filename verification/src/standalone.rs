//! What the standalone program tells of itself: its console output, its status panel, and when it
//! stops.

use crate::device::DeviceChoice;
use crate::receiver::ReceiverStatus;
use crate::sender::SenderStatus;
use crate::status::{flag_text, transport_name, warning_text};
use crate::stream::{StreamMode, StreamParameters, StreamTransport};
use crate::text::{decimal_text, push_decimal, push_dotted, push_two_digits};
use vstd::prelude::*;
use vstd::string::*;

verus! {

/// How often the console shows the status, in milliseconds.
pub const CONSOLE_STATUS_INTERVAL_MS: u64 = 1000;

/// What the program is called with for help.
pub const HELP_TEXT: &'static str = "SomeNET standalone app

Usage:
  somenet [receive|send] [options]
  somenet ui [options]
  somenet devices

Default launch:
  somenet
    Starts receive mode on the default output device at 48 kHz, 2ch, UDP port 5004.

Options:
  --mode send|receive
  --channels N          Audio channels on the SomeNET stream, 1-96
  --sample-rate HZ      44100, 48000, or 96000
  --ip A.B.C.D          Destination, multicast group, or expected source
  --port N              UDP port
  --unicast             Use direct unicast routing
  --multicast           Use multicast routing
  --input TEXT          Input device id/name substring for send mode
  --output TEXT         Output device id/name substring for receive mode
  --ptp                 Advertise PTP clock reference in SDP/status
  --ptp-domain N        PTP domain, 0-127
  --duration SECONDS    Stop automatically after a test run
";

/// The name of a mode on a panel.
pub open spec fn mode_words(mode: StreamMode) -> Seq<char> {
    match mode {
        StreamMode::Send => "SEND"@,
        StreamMode::Receive => "RECEIVE"@,
    }
}

pub fn mode_title(mode: StreamMode) -> (title: &'static str)
    ensures
        title@ == mode_words(mode),
{
    match mode {
        StreamMode::Send => "SEND",
        StreamMode::Receive => "RECEIVE",
    }
}

/// The name of a transport on a panel.
pub open spec fn transport_words(transport: StreamTransport) -> Seq<char> {
    match transport {
        StreamTransport::Unicast => "UNICAST"@,
        StreamTransport::Multicast => "MULTICAST"@,
    }
}

pub fn transport_title(transport: StreamTransport) -> (title: &'static str)
    ensures
        title@ == transport_words(transport),
{
    match transport {
        StreamTransport::Unicast => "UNICAST",
        StreamTransport::Multicast => "MULTICAST",
    }
}

/// The name of the address on a panel.
pub fn endpoint_label(mode: StreamMode, transport: StreamTransport) -> (label: &'static str)
    ensures
        label@ == (match (mode, transport) {
            (StreamMode::Send, StreamTransport::Unicast) => "Destination"@,
            (StreamMode::Receive, StreamTransport::Unicast) => "Source"@,
            (_, StreamTransport::Multicast) => "Group"@,
        }),
{
    match (mode, transport) {
        (StreamMode::Send, StreamTransport::Unicast) => "Destination",
        (StreamMode::Send, StreamTransport::Multicast) => "Group",
        (StreamMode::Receive, StreamTransport::Unicast) => "Source",
        (StreamMode::Receive, StreamTransport::Multicast) => "Group",
    }
}

/// A yes or a no.
pub open spec fn yes_or_no(value: bool) -> Seq<char> {
    if value {
        "yes"@
    } else {
        "no"@
    }
}

pub fn bool_label(value: bool) -> (label: &'static str)
    ensures
        label@ == yes_or_no(value),
{
    if value {
        "yes"
    } else {
        "no"
    }
}

/// A time in hours, minutes and seconds, two digits each.
pub open spec fn clock_time(seconds: nat) -> Seq<char> {
    crate::text::two_digits(seconds / 3600) + ":"@ + crate::text::two_digits((seconds / 60) % 60)
        + ":"@ + crate::text::two_digits(seconds % 60)
}

/// Writes a time in hours, minutes and seconds.
pub fn uptime_text(seconds: u64) -> (text: String)
    ensures
        text@ == clock_time(seconds as nat),
{
    let mut text: String = String::new();
    push_two_digits(&mut text, seconds / 3600);
    proof {
        assert(text@ =~= crate::text::two_digits(seconds as nat / 3600));
    }
    text.append(":");
    push_two_digits(&mut text, (seconds / 60) % 60);
    text.append(":");
    push_two_digits(&mut text, seconds % 60);
    text
}

/// A number below a hundred is written out with two digits.
proof fn lemma_two_digits(number: nat)
    requires
        number < 100,
    ensures
        crate::text::two_digits(number).len() == 2,
{
    reveal_with_fuel(crate::text::decimal, 2);
}

/// Numbers that are written out the same with at least two digits are the same.
proof fn lemma_two_digits_differ(a: nat, b: nat)
    requires
        crate::text::two_digits(a) == crate::text::two_digits(b),
    ensures
        a == b,
{
    crate::text::law_two_digits_round_trip(a, a + b);
    crate::text::law_two_digits_round_trip(b, a + b);
}

/// Different times are shown differently.
pub proof fn law_clock_times_differ(a: nat, b: nat)
    requires
        clock_time(a) == clock_time(b),
    ensures
        a == b,
{
    reveal_strlit(":");
    let shown = clock_time(a);
    let count = shown.len() as int;
    let hours_a = crate::text::two_digits(a / 3600);
    let hours_b = crate::text::two_digits(b / 3600);
    lemma_two_digits((a / 60) % 60);
    lemma_two_digits((b / 60) % 60);
    lemma_two_digits(a % 60);
    lemma_two_digits(b % 60);
    assert(hours_a.len() == count - 6);
    assert(hours_b.len() == count - 6);
    assert(hours_a =~= shown.subrange(0, count - 6));
    assert(hours_b =~= shown.subrange(0, count - 6));
    assert(crate::text::two_digits((a / 60) % 60) =~= shown.subrange(count - 5, count - 3));
    assert(crate::text::two_digits((b / 60) % 60) =~= shown.subrange(count - 5, count - 3));
    assert(crate::text::two_digits(a % 60) =~= shown.subrange(count - 2, count));
    assert(crate::text::two_digits(b % 60) =~= shown.subrange(count - 2, count));
    lemma_two_digits_differ(a / 3600, b / 3600);
    lemma_two_digits_differ((a / 60) % 60, (b / 60) % 60);
    lemma_two_digits_differ(a % 60, b % 60);
}

/// What is shown of a stream: its transport, its channels and where it goes.
pub fn stream_summary(transport: StreamTransport, channels: u8, ip_text: &str, port: u16) -> (text:
    String)
    ensures
        text@ == transport_words(transport) + " "@ + crate::text::decimal(channels as nat)
            + "ch "@ + ip_text@ + ":"@ + crate::text::decimal(port as nat),
{
    let mut text: String = transport_title(transport).to_owned();
    text.append(" ");
    push_decimal(&mut text, channels as u64);
    text.append("ch ");
    text.append(ip_text);
    text.append(":");
    push_decimal(&mut text, port as u64);
    text
}

/// A sender's status on the console.
pub fn sender_console_line(status: SenderStatus) -> (text: String)
    ensures
        text@ == "send   active="@ + crate::status::flag(status.active) + " packets="@
            + crate::text::decimal(status.packets_sent as nat) + " dropped="@
            + crate::text::decimal(status.packets_dropped as nat) + " queued_frames="@
            + crate::text::decimal(status.queued_frames as nat),
{
    let mut text: String = "send   active=".to_owned();
    text.append(flag_text(status.active));
    text.append(" packets=");
    push_decimal(&mut text, status.packets_sent);
    text.append(" dropped=");
    push_decimal(&mut text, status.packets_dropped);
    text.append(" queued_frames=");
    push_decimal(&mut text, status.queued_frames as u64);
    text
}

/// A receiver's status on the console.
pub fn receiver_console_line(status: ReceiverStatus) -> (text: String)
    ensures
        text@ == "recv   active="@ + crate::status::flag(status.active) + " primed="@
            + crate::status::flag(status.primed) + " packets="@ + crate::text::decimal(
            status.packets_received as nat,
        ) + " lost="@ + crate::text::decimal(status.packets_lost as nat) + " underruns="@
            + crate::text::decimal(status.underruns as nat) + " queued="@ + crate::text::decimal(
            status.queued_samples as nat,
        ) + " target="@ + crate::text::decimal(status.target_buffer_samples as nat),
{
    let mut text: String = "recv   active=".to_owned();
    text.append(flag_text(status.active));
    text.append(" primed=");
    text.append(flag_text(status.primed));
    text.append(" packets=");
    push_decimal(&mut text, status.packets_received);
    text.append(" lost=");
    push_decimal(&mut text, status.packets_lost);
    text.append(" underruns=");
    push_decimal(&mut text, status.underruns);
    text.append(" queued=");
    push_decimal(&mut text, status.queued_samples as u64);
    text.append(" target=");
    push_decimal(&mut text, status.target_buffer_samples as u64);
    text
}

/// How a device was opened.
pub struct OpenedDevice {
    pub label: String,
    pub channels: u16,
    pub sample_rate_hz: u32,
    pub buffer: String,
}

/// What the console shows when a stream starts, line by line.
pub open spec fn launch_lines(
    version: Seq<char>,
    device: OpenedDevice,
    params: StreamParameters,
) -> Seq<Seq<char>> {
    let warnings = crate::status::warnings(
        device.sample_rate_hz,
        params.channels,
        params.clock_reference,
    );
    seq![
        "SomeNET "@ + version,
        "mode="@ + (match params.mode {
            StreamMode::Send => "send"@,
            StreamMode::Receive => "receive"@,
        }),
        "device="@ + device.label@,
        "audio="@ + crate::text::decimal(device.channels as nat) + "ch "@ + crate::text::decimal(
            device.sample_rate_hz as nat,
        ) + "Hz buffer="@ + device.buffer@,
        "stream="@ + crate::text::decimal(params.channels as nat) + "ch "@
            + crate::status::transport_word(params.transport) + " "@ + crate::text::dotted(
            params.ip,
        ) + ":"@ + crate::text::decimal(params.port as nat) + " clock="@ + (
        match params.clock_reference {
            crate::stream::ClockReference::Local => "local"@,
            crate::stream::ClockReference::Ptp => "ptp"@,
        }) + " ptp_domain="@ + crate::text::decimal(params.ptp_domain as nat),
    ] + (if crate::status::barred(warnings).len() > 0 {
        seq!["warning="@ + crate::status::barred(warnings)]
    } else {
        Seq::empty()
    }) + seq!["Press Ctrl-C to stop."@]
}

/// Writes what the console shows when a stream starts.
pub fn launch_header(version: &str, device: &OpenedDevice, params: StreamParameters) -> (lines: Vec<
    String,
>)
    ensures
        crate::status::strings(lines@) == launch_lines(version@, *device, params),
{
    let mut name: String = "SomeNET ".to_owned();
    name.append(version);
    let mut mode: String = "mode=".to_owned();
    mode.append(
        match params.mode {
            StreamMode::Send => "send",
            StreamMode::Receive => "receive",
        },
    );
    let mut label: String = "device=".to_owned();
    label.append(device.label.as_str());
    let mut audio: String = "audio=".to_owned();
    push_decimal(&mut audio, device.channels as u64);
    audio.append("ch ");
    push_decimal(&mut audio, device.sample_rate_hz as u64);
    audio.append("Hz buffer=");
    audio.append(device.buffer.as_str());
    let mut stream: String = "stream=".to_owned();
    push_decimal(&mut stream, params.channels as u64);
    stream.append("ch ");
    stream.append(transport_name(params.transport));
    stream.append(" ");
    push_dotted(&mut stream, params.ip);
    stream.append(":");
    push_decimal(&mut stream, params.port as u64);
    stream.append(" clock=");
    stream.append(params.clock_reference.status_name());
    stream.append(" ptp_domain=");
    push_decimal(&mut stream, params.ptp_domain as u64);
    let warning: String = warning_text(
        device.sample_rate_hz,
        params.channels,
        params.clock_reference,
    );
    let mut lines: Vec<String> = Vec::new();
    lines.push(name);
    lines.push(mode);
    lines.push(label);
    lines.push(audio);
    lines.push(stream);
    if warning.as_str().unicode_len() > 0 {
        let mut line: String = "warning=".to_owned();
        line.append(warning.as_str());
        lines.push(line);
    }
    lines.push("Press Ctrl-C to stop.".to_owned());
    proof {
        assert(crate::status::strings(lines@) =~= launch_lines(version@, *device, params));
    }
    lines
}

/// The lines on one device in a list.
pub open spec fn device_lines(device: DeviceChoice, index: int) -> Seq<Seq<char>> {
    seq![crate::text::decimal((index + 1) as nat) + ". "@ + device.name@] + (
    if device.id@.len() > 0 {
        seq!["   id="@ + device.id@]
    } else {
        Seq::empty()
    }) + (if device.input_default@.len() > 0 {
        seq!["   input_default="@ + device.input_default@]
    } else {
        Seq::empty()
    }) + (if device.output_default@.len() > 0 {
        seq!["   output_default="@ + device.output_default@]
    } else {
        Seq::empty()
    })
}

/// The lines on the first `count` devices.
pub open spec fn all_device_lines(devices: Seq<DeviceChoice>, count: nat) -> Seq<Seq<char>>
    decreases count,
{
    if count == 0 {
        Seq::empty()
    } else {
        all_device_lines(devices, (count - 1) as nat) + device_lines(devices[count - 1], count - 1)
    }
}

/// The list of devices, line by line.
pub open spec fn listing(
    host: Seq<char>,
    default_input: Seq<char>,
    default_output: Seq<char>,
    devices: Seq<DeviceChoice>,
) -> Seq<Seq<char>> {
    seq![
        "SomeNET audio devices"@,
        "host="@ + host,
        Seq::<char>::empty(),
        "default_input="@ + default_input,
        "default_output="@ + default_output,
        Seq::<char>::empty(),
    ] + all_device_lines(devices, devices.len())
}

/// A word and what follows it.
fn joined(word: &str, rest: &str) -> (text: String)
    ensures
        text@ == word@ + rest@,
{
    let mut text: String = word.to_owned();
    text.append(rest);
    text
}

/// Adds the lines on one device.
fn push_device_lines(lines: &mut Vec<String>, device: &DeviceChoice, index: usize)
    requires
        index < usize::MAX,
    ensures
        crate::status::strings(final(lines)@) == crate::status::strings(old(lines)@) + device_lines(
            *device,
            index as int,
        ),
{
    let ghost before = crate::status::strings(lines@);
    let mut head: String = decimal_text((index + 1) as u64);
    head.append(". ");
    head.append(device.name.as_str());
    lines.push(head);
    if device.id.as_str().unicode_len() > 0 {
        lines.push(joined("   id=", device.id.as_str()));
    }
    if device.input_default.as_str().unicode_len() > 0 {
        lines.push(joined("   input_default=", device.input_default.as_str()));
    }
    if device.output_default.as_str().unicode_len() > 0 {
        lines.push(joined("   output_default=", device.output_default.as_str()));
    }
    proof {
        assert(crate::status::strings(lines@) =~= before + device_lines(*device, index as int));
    }
}

/// Writes the list of devices.
pub fn device_listing(
    host: &str,
    default_input: &str,
    default_output: &str,
    devices: &Vec<DeviceChoice>,
) -> (lines: Vec<String>)
    ensures
        crate::status::strings(lines@) == listing(
            host@,
            default_input@,
            default_output@,
            devices@,
        ),
{
    let mut lines: Vec<String> = Vec::new();
    lines.push("SomeNET audio devices".to_owned());
    lines.push(joined("host=", host));
    lines.push(String::new());
    lines.push(joined("default_input=", default_input));
    lines.push(joined("default_output=", default_output));
    lines.push(String::new());
    let ghost head = crate::status::strings(lines@);
    proof {
        assert(head =~= seq![
            "SomeNET audio devices"@,
            "host="@ + host@,
            Seq::<char>::empty(),
            "default_input="@ + default_input@,
            "default_output="@ + default_output@,
            Seq::<char>::empty(),
        ]);
        assert(head + all_device_lines(devices@, 0) =~= head);
    }
    let mut index: usize = 0;
    while index < devices.len()
        invariant
            index <= devices@.len(),
            crate::status::strings(lines@) == head + all_device_lines(devices@, index as nat),
        decreases devices@.len() - index,
    {
        push_device_lines(&mut lines, &devices[index], index);
        index = index + 1;
        proof {
            assert(head + all_device_lines(devices@, index as nat) =~= head + all_device_lines(
                devices@,
                (index - 1) as nat,
            ) + device_lines(devices@[index - 1], index - 1));
        }
    }
    lines
}

/// A row of a panel: a name and a value.
pub struct PanelRow {
    pub label: &'static str,
    pub value: String,
}

/// A row of a panel.
pub open spec fn row(label: Seq<char>, value: Seq<char>) -> (Seq<char>, Seq<char>) {
    (label, value)
}

/// What rows show.
pub open spec fn shown_rows(rows: Seq<PanelRow>) -> Seq<(Seq<char>, Seq<char>)> {
    rows.map_values(|r: PanelRow| (r.label@, r.value@))
}

/// The rows on a running stream.
pub fn runtime_rows(device: &OpenedDevice, params: StreamParameters, uptime_seconds: u64) -> (rows:
    Vec<PanelRow>)
    ensures
        shown_rows(rows@) == seq![
            row("Mode"@, mode_words(params.mode)),
            row("Transport"@, transport_words(params.transport)),
            row("Device"@, device.label@),
            row(
                "Audio"@,
                crate::text::decimal(device.channels as nat) + "ch "@ + crate::text::decimal(
                    device.sample_rate_hz as nat,
                ) + "Hz"@,
            ),
            row("Buffer"@, device.buffer@),
            row("Uptime"@, clock_time(uptime_seconds as nat)),
        ],
{
    let mut audio: String = decimal_text(device.channels as u64);
    audio.append("ch ");
    push_decimal(&mut audio, device.sample_rate_hz as u64);
    audio.append("Hz");
    let mut rows: Vec<PanelRow> = Vec::new();
    rows.push(PanelRow { label: "Mode", value: mode_title(params.mode).to_owned() });
    rows.push(PanelRow { label: "Transport", value: transport_title(params.transport).to_owned() });
    rows.push(PanelRow { label: "Device", value: device.label.clone() });
    rows.push(PanelRow { label: "Audio", value: audio });
    rows.push(PanelRow { label: "Buffer", value: device.buffer.clone() });
    rows.push(PanelRow { label: "Uptime", value: uptime_text(uptime_seconds) });
    proof {
        assert(shown_rows(rows@) =~= seq![
            row("Mode"@, mode_words(params.mode)),
            row("Transport"@, transport_words(params.transport)),
            row("Device"@, device.label@),
            row(
                "Audio"@,
                crate::text::decimal(device.channels as nat) + "ch "@ + crate::text::decimal(
                    device.sample_rate_hz as nat,
                ) + "Hz"@,
            ),
            row("Buffer"@, device.buffer@),
            row("Uptime"@, clock_time(uptime_seconds as nat)),
        ]);
    }
    rows
}

/// The figures of a sender.
pub fn sender_metrics(status: SenderStatus) -> (rows: Vec<PanelRow>)
    ensures
        shown_rows(rows@) == seq![
            row("Packets"@, crate::text::decimal(status.packets_sent as nat)),
            row("Dropped"@, crate::text::decimal(status.packets_dropped as nat)),
            row("Queued"@, crate::text::decimal(status.queued_frames as nat)),
        ],
{
    let mut rows: Vec<PanelRow> = Vec::new();
    rows.push(PanelRow { label: "Packets", value: decimal_text(status.packets_sent) });
    rows.push(PanelRow { label: "Dropped", value: decimal_text(status.packets_dropped) });
    rows.push(PanelRow { label: "Queued", value: decimal_text(status.queued_frames as u64) });
    proof {
        assert(shown_rows(rows@) =~= seq![
            row("Packets"@, crate::text::decimal(status.packets_sent as nat)),
            row("Dropped"@, crate::text::decimal(status.packets_dropped as nat)),
            row("Queued"@, crate::text::decimal(status.queued_frames as nat)),
        ]);
    }
    rows
}

/// The figures of a receiver.
pub fn receiver_metrics(status: ReceiverStatus) -> (rows: Vec<PanelRow>)
    ensures
        shown_rows(rows@) == seq![
            row("Packets"@, crate::text::decimal(status.packets_received as nat)),
            row("Lost"@, crate::text::decimal(status.packets_lost as nat)),
            row("Underruns"@, crate::text::decimal(status.underruns as nat)),
            row("Queued"@, crate::text::decimal(status.queued_samples as nat)),
            row("Target"@, crate::text::decimal(status.target_buffer_samples as nat)),
            row("Primed"@, yes_or_no(status.primed)),
        ],
{
    let mut rows: Vec<PanelRow> = Vec::new();
    rows.push(PanelRow { label: "Packets", value: decimal_text(status.packets_received) });
    rows.push(PanelRow { label: "Lost", value: decimal_text(status.packets_lost) });
    rows.push(PanelRow { label: "Underruns", value: decimal_text(status.underruns) });
    rows.push(PanelRow { label: "Queued", value: decimal_text(status.queued_samples as u64) });
    rows.push(
        PanelRow { label: "Target", value: decimal_text(status.target_buffer_samples as u64) },
    );
    rows.push(PanelRow { label: "Primed", value: bool_label(status.primed).to_owned() });
    proof {
        assert(shown_rows(rows@) =~= seq![
            row("Packets"@, crate::text::decimal(status.packets_received as nat)),
            row("Lost"@, crate::text::decimal(status.packets_lost as nat)),
            row("Underruns"@, crate::text::decimal(status.underruns as nat)),
            row("Queued"@, crate::text::decimal(status.queued_samples as nat)),
            row("Target"@, crate::text::decimal(status.target_buffer_samples as nat)),
            row("Primed"@, yes_or_no(status.primed)),
        ]);
    }
    rows
}

/// What a program that runs a stream does next.
#[derive(Clone, Copy, Debug, PartialEq, Eq, Structural)]
pub enum WaitStep {
    /// It stops.
    Stop,
    /// It shows its status and waits.
    ShowStatus,
    /// It waits.
    Wait,
}

/// A program that runs a stream until it is stopped, or for a time.
pub struct ShutdownWait {
    pub started_ms: u64,
    pub next_status_ms: u64,
    pub duration_seconds: Option<u64>,
}

impl ShutdownWait {
    /// A program that has just started: it shows its status at once.
    pub fn new(now_ms: u64, duration_seconds: Option<u64>) -> (wait: Self)
        ensures
            wait.started_ms == now_ms,
            wait.next_status_ms == now_ms,
            wait.duration_seconds == duration_seconds,
    {
        ShutdownWait { started_ms: now_ms, next_status_ms: now_ms, duration_seconds }
    }

    /// Whether the time is up.
    pub open spec fn is_over(&self, now_ms: u64) -> bool {
        self.duration_seconds matches Some(seconds) && crate::playout::elapsed(
            self.started_ms,
            now_ms,
        ) >= seconds * 1000
    }

    /// Decides what is done next.
    pub fn step(&mut self, running: bool, now_ms: u64) -> (step: WaitStep)
        requires
            now_ms + CONSOLE_STATUS_INTERVAL_MS <= u64::MAX,
        ensures
            step == (if !running || old(self).is_over(now_ms) {
                WaitStep::Stop
            } else if now_ms >= old(self).next_status_ms {
                WaitStep::ShowStatus
            } else {
                WaitStep::Wait
            }),
            final(self).started_ms == old(self).started_ms,
            final(self).duration_seconds == old(self).duration_seconds,
            final(self).next_status_ms == (if step is ShowStatus {
                (now_ms + CONSOLE_STATUS_INTERVAL_MS) as u64
            } else {
                old(self).next_status_ms
            }),
    {
        if !running {
            return WaitStep::Stop;
        }
        if let Some(seconds) = self.duration_seconds {
            let elapsed: u64 = now_ms.saturating_sub(self.started_ms);
            if elapsed / 1000 >= seconds {
                return WaitStep::Stop;
            }
        }
        if now_ms >= self.next_status_ms {
            self.next_status_ms = now_ms + CONSOLE_STATUS_INTERVAL_MS;
            WaitStep::ShowStatus
        } else {
            WaitStep::Wait
        }
    }
}

/// A time is shown as its hours, minutes and seconds.
pub proof fn law_times_are_shown_by_hours_minutes_and_seconds(hours: nat, minutes: nat, seconds: nat)
    requires
        minutes < 60,
        seconds < 60,
    ensures
        clock_time(3600 * hours + 60 * minutes + seconds) == crate::text::two_digits(hours) + ":"@
            + crate::text::two_digits(minutes) + ":"@ + crate::text::two_digits(seconds),
{
    let total = 3600 * hours + 60 * minutes + seconds;
    assert(total / 3600 == hours);
    assert(total / 60 == 60 * hours + minutes);
    assert((60 * hours + minutes) as nat % 60 == minutes);
    assert(total % 60 == seconds);
}

/// A program with a duration is over as many seconds after it was started, and not before. One without
/// is never over.
pub proof fn law_durations_end_a_program(wait: &ShutdownWait, now_ms: u64)
    ensures
        wait.duration_seconds is None ==> !wait.is_over(now_ms),
        wait.duration_seconds matches Some(seconds) ==> (wait.is_over(now_ms) <==> seconds == 0
            || now_ms >= wait.started_ms + 1000 * seconds),
{
}

/// What is shown on a panel: modes and transports in capitals, and a yes or a no.
pub proof fn law_words_on_a_panel()
    ensures
        mode_words(StreamMode::Send) == "SEND"@,
        mode_words(StreamMode::Receive) == "RECEIVE"@,
        transport_words(StreamTransport::Unicast) == "UNICAST"@,
        transport_words(StreamTransport::Multicast) == "MULTICAST"@,
        yes_or_no(true) == "yes"@,
        yes_or_no(false) == "no"@,
{
}

/// What the console shows of a stream that starts: its mode, device and stream, a warning exactly where
/// there is one, and last how to stop it.
pub proof fn law_launches_are_shown(
    version: Seq<char>,
    device: OpenedDevice,
    params: StreamParameters,
)
    ensures
        ({
            let lines = launch_lines(version, device, params);
            let warning = crate::status::barred(
                crate::status::warnings(
                    device.sample_rate_hz,
                    params.channels,
                    params.clock_reference,
                ),
            );
            &&& lines.len() == if warning.len() > 0 {
                7int
            } else {
                6
            }
            &&& lines[0] == "SomeNET "@ + version
            &&& params.mode == StreamMode::Send ==> lines[1] == "mode="@ + "send"@
            &&& params.mode == StreamMode::Receive ==> lines[1] == "mode="@ + "receive"@
            &&& lines[2] == "device="@ + device.label@
            &&& warning.len() > 0 ==> lines[5] == "warning="@ + warning
            &&& lines.last() == "Press Ctrl-C to stop."@
        }),
{
}

/// A list of devices grows by the lines of each: its number, counted from one, and its name, and then
/// what there is of its identifier and of the formats of its input and output.
pub proof fn law_devices_are_listed_one_by_one(
    host: Seq<char>,
    default_input: Seq<char>,
    default_output: Seq<char>,
    devices: Seq<DeviceChoice>,
    device: DeviceChoice,
)
    ensures
        ({
            let before = listing(host, default_input, default_output, devices);
            let after = listing(host, default_input, default_output, devices.push(device));
            let first = before.len() as int;
            &&& after.len() == before.len() + 1 + crate::status::counted_if(device.id@.len() > 0)
                + crate::status::counted_if(device.input_default@.len() > 0)
                + crate::status::counted_if(device.output_default@.len() > 0)
            &&& after.take(first) == before
            &&& after[first] == crate::text::decimal(devices.len() + 1) + ". "@ + device.name@
            &&& device.id@.len() > 0 ==> after[first + 1] == "   id="@ + device.id@
            &&& device.output_default@.len() > 0 ==> after.last() == "   output_default="@
                + device.output_default@
            &&& device.input_default@.len() > 0 ==> after[first + 1 + crate::status::counted_if(
                device.id@.len() > 0,
            )] == "   input_default="@ + device.input_default@
            &&& before[1] == "host="@ + host
            &&& before[3] == "default_input="@ + default_input
            &&& before[4] == "default_output="@ + default_output
        }),
{
    let longer = devices.push(device);
    lemma_lines_of_devices(longer, devices, devices.len());
    let before = listing(host, default_input, default_output, devices);
    let after = listing(host, default_input, default_output, longer);
    assert(after =~= before + device_lines(device, devices.len() as int));
    assert(after.take(before.len() as int) =~= before);
}

/// Only the devices that are listed make a difference.
proof fn lemma_lines_of_devices(one: Seq<DeviceChoice>, other: Seq<DeviceChoice>, count: nat)
    requires
        forall|i: int| 0 <= i < count ==> #[trigger] one[i] == other[i],
    ensures
        all_device_lines(one, count) == all_device_lines(other, count),
    decreases count,
{
    if count > 0 {
        assert(one[count - 1] == other[count - 1]);
        lemma_lines_of_devices(one, other, (count - 1) as nat);
    }
}

} // verus!
