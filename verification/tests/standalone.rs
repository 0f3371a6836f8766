use somenet::block::AudioBlock;
use somenet::cli::{parse_args, parse_mode, AppConfig, Command};
use somenet::device::{
    deinterleave, device_format, find_device, interleave, no_device_message,
    preallocated_callback_frames, sample_format_rank, select_config, selected_device_label,
    validate_sample_rate, ConfigRange, DeviceChoice, SampleKind,
};
use somenet::lines::{char_is_space, contains, find_value, split_lines, to_ascii_lowercase, trim};
use somenet::receiver::ReceiverStatus;
use somenet::sender::SenderStatus;
use somenet::standalone::{
    bool_label, device_listing, endpoint_label, launch_header, mode_title, receiver_console_line,
    receiver_metrics, runtime_rows, sender_console_line, sender_metrics, stream_summary,
    transport_title, uptime_text, OpenedDevice, ShutdownWait, WaitStep, HELP_TEXT,
};
use somenet::stream::{ClockReference, StreamMode, StreamParameters, StreamTransport};
use somenet::text::{
    chars_of, decimal_text, dotted_text, find_char, parse_ipv4, parse_number, part, same_text,
    NumberError,
};

fn arguments(text: &str) -> Vec<String> {
    text.split_whitespace().map(|word| word.to_string()).collect()
}

fn fault(text: &str) -> String {
    match parse_args(&arguments(text)) {
        Ok(_) => panic!("{text} is refused"),
        Err(error) => error.message(),
    }
}

fn accepted(text: &str) -> AppConfig {
    match parse_args(&arguments(text)) {
        Ok(config) => config,
        Err(error) => panic!("{}", error.message()),
    }
}

#[test]
fn a_bare_command_line_receives() {
    let config = accepted("");
    assert_eq!(config.command, Command::Run);
    assert_eq!(config.mode, StreamMode::Receive);
    assert_eq!(config.sample_rate_hz, 48_000);
    assert!(config.input_device.is_none() && config.output_device.is_none());
    assert_eq!(config.duration, None);
    assert_eq!(
        config.stream_parameters(),
        StreamParameters {
            enabled: true,
            mode: StreamMode::Receive,
            transport: StreamTransport::Unicast,
            channels: 2,
            port: 5004,
            ip: [127, 0, 0, 1],
            clock_reference: ClockReference::Local,
            ptp_domain: 0,
        }
    );
}

#[test]
fn a_command_line_sets_everything() {
    let config = accepted(
        "send -c 8 -p 6000 --ip 239.1.2.3 --multicast --ptp --ptp-domain 200 -r 96000 \
--input mic --output out --duration 30",
    );
    assert_eq!(config.mode, StreamMode::Send);
    assert_eq!(config.channels, 8);
    assert_eq!(config.port, 6000);
    assert_eq!(config.ip, [239, 1, 2, 3]);
    assert_eq!(config.transport, StreamTransport::Multicast);
    assert_eq!(config.clock_reference, ClockReference::Ptp);
    assert_eq!(config.ptp_domain, 127);
    assert_eq!(config.sample_rate_hz, 96_000);
    assert_eq!(config.input_device.as_deref(), Some("mic"));
    assert_eq!(config.output_device.as_deref(), Some("out"));
    assert_eq!(config.duration, Some(30));
    let later = accepted("--multicast --unicast --ptp --local-clock send --mode RECV -c 200 -p 0");
    assert_eq!(later.transport, StreamTransport::Unicast);
    assert_eq!(later.clock_reference, ClockReference::Local);
    assert_eq!(later.mode, StreamMode::Receive);
    assert_eq!(later.channels, 96);
    assert_eq!(later.port, 1);
    assert_eq!(accepted("ui").command, Command::Ui);
    assert_eq!(accepted("--list-devices").command, Command::Devices);
    assert_eq!(accepted("devices --help").command, Command::Help);
}

#[test]
fn faults_on_the_command_line_are_named() {
    assert_eq!(fault("--loud"), "unknown argument: --loud");
    assert_eq!(fault("-p"), "missing value for --port");
    assert_eq!(fault("--mode both"), "invalid mode: both");
    assert_eq!(fault("-c many"), "invalid digit found in string");
    assert_eq!(fault("-c 256"), "number too large to fit in target type");
    assert_eq!(fault("-p -1"), "invalid digit found in string");
    assert_eq!(fault("--ip 1.2.3"), "invalid IPv4 address syntax");
    let empty = vec!["--duration".to_string(), String::new()];
    match parse_args(&empty) {
        Ok(_) => panic!("an empty number is refused"),
        Err(error) => assert_eq!(error.message(), "cannot parse integer from empty string"),
    }
}

#[test]
fn modes_are_read_in_any_case() {
    assert_eq!(parse_mode("Send").ok(), Some(StreamMode::Send));
    assert_eq!(parse_mode("rEcEiVe").ok(), Some(StreamMode::Receive));
    assert!(parse_mode("sender").is_err());
}

#[test]
fn numbers_are_read_as_std_reads_them() {
    for text in [
        "", "+", "-", "0", "007", "+12", "++1", "-5", "255", "256", "65535", "65536", "4294967295",
        "4294967296", "18446744073709551615", "18446744073709551616", "1x", " 1", "12 ",
        "99999999999999999999999x", "\u{0663}",
    ] {
        let chars = chars_of(text);
        assert_eq!(
            parse_number(&chars, u8::MAX as u64).ok(),
            text.parse::<u8>().ok().map(|number| number as u64)
        );
        assert_eq!(
            parse_number(&chars, u32::MAX as u64).ok(),
            text.parse::<u32>().ok().map(|number| number as u64)
        );
        assert_eq!(parse_number(&chars, u64::MAX).ok(), text.parse::<u64>().ok());
        if let (Err(found), Err(expected)) = (parse_number(&chars, 255), text.parse::<u8>()) {
            assert_eq!(found.message(), expected.to_string());
        }
    }
    assert!(matches!(parse_number(&[], 9), Err(NumberError::Empty)));
}

#[test]
fn addresses_are_read_back() {
    for ip in [[0, 0, 0, 0], [255, 255, 255, 255], [10, 200, 3, 47]] {
        let text = dotted_text(ip);
        assert_eq!(text, format!("{}.{}.{}.{}", ip[0], ip[1], ip[2], ip[3]));
        assert_eq!(parse_ipv4(&text), Some(ip));
    }
    for text in [
        "", "1.2.3", "1.2.3.4.5", "256.1.1.1", "01.2.3.4", "1.2.3.4 ", "1..2.3", "a.b.c.d",
        "1.2.3.1000", "+1.2.3.4", "1.2.3.", "00.0.0.0",
    ] {
        assert_eq!(parse_ipv4(text), None, "{text}");
    }
}

#[test]
fn numbers_are_written_out() {
    for number in [0, 9, 10, 99, 100, 65_535, u64::MAX] {
        assert_eq!(decimal_text(number), number.to_string());
    }
    assert!(same_text("abc", "abc"));
    assert!(!same_text("abc", "abd"));
    let chars = chars_of("key=value");
    assert_eq!(find_char(&chars, '=', 0), 3);
    assert_eq!(find_char(&chars, '?', 2), 9);
    assert_eq!(part(&chars, 4, 9), chars_of("value"));
}

#[test]
fn spaces_are_those_of_std() {
    for code in 0..=0x10_ffff_u32 {
        if let Some(c) = char::from_u32(code) {
            assert_eq!(char_is_space(c), c.is_whitespace(), "{code:x}");
        }
    }
}

#[test]
fn texts_are_cut_and_searched() {
    for text in ["", "  ", " a ", "\t\u{a0}a b\u{2003}\n", "ab"] {
        assert_eq!(trim(&chars_of(text)), chars_of(text.trim()));
    }
    assert_eq!(
        to_ascii_lowercase(&chars_of("MiXed \u{c4}Z")),
        chars_of("mixed \u{c4}z")
    );
    assert!(contains(&chars_of("built-in output"), &chars_of("in out")));
    assert!(contains(&chars_of("abc"), &[]));
    assert!(!contains(&chars_of("abc"), &chars_of("abcd")));
    for text in ["", "\n", "a\nb", "a\r\nb\n", "a\r", "a\n\nb\r\n"] {
        let expected: Vec<Vec<char>> = text.lines().map(|line| line.chars().collect()).collect();
        assert_eq!(split_lines(&chars_of(text)), expected, "{text:?}");
    }
}

#[test]
fn the_last_value_of_a_key_counts() {
    let lines = split_lines(&chars_of("a=1\nb=2\nplain\na=3=4\nab=5"));
    assert_eq!(find_value(&lines, &["a"]), chars_of("3=4"));
    assert_eq!(find_value(&lines, &["b", "ab"]), chars_of("5"));
    assert_eq!(find_value(&lines, &["c"]), Vec::new());
}

fn device(id: &str, name: &str) -> DeviceChoice {
    DeviceChoice {
        id: id.to_string(),
        name: name.to_string(),
        input: true,
        output: false,
        input_default: "in format".to_string(),
        output_default: String::new(),
    }
}

#[test]
fn devices_are_found_by_part_of_a_name() {
    let devices = vec![
        ("hw:0".to_string(), "Built-in Output".to_string()),
        ("hw:1".to_string(), "USB Interface".to_string()),
    ];
    assert_eq!(find_device("usb", &devices), Some(1));
    assert_eq!(find_device("HW:", &devices), Some(0));
    assert_eq!(find_device("out", &devices), Some(0));
    assert_eq!(find_device("midi", &devices), None);
    assert_eq!(
        no_device_message("MIDI"),
        "no matching audio device for 'midi'"
    );
}

#[test]
fn chosen_devices_are_shown_by_name() {
    let devices = vec![device("hw:0", "Built-in"), device("", "USB")];
    assert_eq!(devices[0].query(), "hw:0");
    assert_eq!(devices[1].query(), "USB");
    assert!(devices[0].matches_query("Built-in"));
    assert!(!devices[0].matches_query("built-in"));
    assert_eq!(
        selected_device_label(None, &devices, "Speakers"),
        "Default (Speakers)"
    );
    assert_eq!(selected_device_label(Some("hw:0"), &devices, "x"), "Built-in");
    assert_eq!(selected_device_label(Some("gone"), &devices, "x"), "gone");
    assert_eq!(device_format(&devices[0]), "in format");
    let output_only = DeviceChoice {
        input_default: String::new(),
        output_default: "out format".to_string(),
        ..device("a", "b")
    };
    assert_eq!(device_format(&output_only), "out format");
}

fn range(channels: u16, min: u32, max: u32, kind: SampleKind) -> ConfigRange {
    ConfigRange {
        channels,
        min_sample_rate: min,
        max_sample_rate: max,
        kind,
    }
}

#[test]
fn configurations_are_ranked() {
    let configs = vec![
        range(2, 8_000, 192_000, SampleKind::I16),
        range(8, 8_000, 192_000, SampleKind::F32),
        range(4, 48_000, 48_000, SampleKind::F32),
        range(4, 8_000, 192_000, SampleKind::F32),
        range(1, 8_000, 192_000, SampleKind::F32),
    ];
    assert_eq!(select_config(&configs, 2, 48_000), Some(2));
    assert_eq!(select_config(&configs, 2, 44_100), Some(3));
    assert_eq!(select_config(&configs, 5, 48_000), Some(1));
    assert_eq!(select_config(&configs, 9, 48_000), None);
    assert_eq!(select_config(&configs, 2, 384_000), None);
    assert_eq!(sample_format_rank(SampleKind::F32), 0);
    assert_eq!(sample_format_rank(SampleKind::U16), 5);
    assert_eq!(sample_format_rank(SampleKind::Other), 20);
}

#[test]
fn sample_rates_are_checked() {
    for rate in [44_100, 48_000, 96_000] {
        assert!(validate_sample_rate(rate).is_ok());
    }
    assert_eq!(
        validate_sample_rate(22_050),
        Err(
            "unsupported sample rate 22050; SomeNET currently supports 44100, 48000, or 96000 Hz"
                .to_string()
        )
    );
    assert_eq!(preallocated_callback_frames(None), 2048);
    assert_eq!(preallocated_callback_frames(Some(0)), 1);
    assert_eq!(preallocated_callback_frames(Some(512)), 512);
    assert_eq!(preallocated_callback_frames(Some(100_000)), 16_384);
}

#[test]
fn samples_are_taken_apart_and_put_together() {
    let data: Vec<u32> = (1..=6).collect();
    let block: AudioBlock = deinterleave(&data, 2, 3);
    assert_eq!(block.channels[0], Some(vec![1, 3, 5]));
    assert_eq!(block.channels[1], Some(vec![2, 4, 6]));
    assert_eq!(block.channels[2], Some(vec![0, 0, 0]));
    assert_eq!(block.channels[3], None);
    assert_eq!(interleave(&block, 2, 3), data);
    assert_eq!(interleave(&block, 4, 1), vec![1, 2, 0, 0]);
    assert_eq!(interleave(&block, 0, 3), vec![1, 3, 5]);
    assert_eq!(deinterleave(&data, 0, 1).channels[0], Some(data.clone()));
    let ragged: AudioBlock = deinterleave(&vec![1, 2, 3], 2, 1);
    assert_eq!(ragged.channels[0], Some(vec![1]));
}

fn opened() -> OpenedDevice {
    OpenedDevice {
        label: "USB".to_string(),
        channels: 4,
        sample_rate_hz: 44_100,
        buffer: "Default".to_string(),
    }
}

fn receiving() -> StreamParameters {
    accepted("--multicast --ip 239.1.2.3 --ptp --ptp-domain 3").stream_parameters()
}

#[test]
fn a_launch_is_announced() {
    assert_eq!(
        launch_header("0.1.0", &opened(), receiving()),
        vec![
            "SomeNET 0.1.0".to_string(),
            "mode=receive".to_string(),
            "device=USB".to_string(),
            "audio=4ch 44100Hz buffer=Default".to_string(),
            "stream=2ch multicast 239.1.2.3:5004 clock=ptp ptp_domain=3".to_string(),
            "warning=44.1 kHz is supported but not ST 2110-30 compliant | PTP mode currently \
advertises SDP clock reference and domain only; host clock discipline is still TODO"
                .to_string(),
            "Press Ctrl-C to stop.".to_string(),
        ]
    );
    let quiet = OpenedDevice {
        sample_rate_hz: 48_000,
        ..opened()
    };
    let plain = accepted("send").stream_parameters();
    let lines = launch_header("1", &quiet, plain);
    assert_eq!(lines.len(), 6);
    assert_eq!(lines[1], "mode=send");
}

#[test]
fn devices_are_listed() {
    let both = DeviceChoice {
        output_default: "out format".to_string(),
        ..device("hw:0", "Built-in")
    };
    let bare = DeviceChoice {
        input_default: String::new(),
        ..device("", "USB")
    };
    assert_eq!(
        device_listing("ALSA", "none", "Built-in", &vec![both, bare]),
        vec![
            "SomeNET audio devices",
            "host=ALSA",
            "",
            "default_input=none",
            "default_output=Built-in",
            "",
            "1. Built-in",
            "   id=hw:0",
            "   input_default=in format",
            "   output_default=out format",
            "2. USB",
        ]
    );
}

#[test]
fn counters_are_shown() {
    let sender = SenderStatus {
        active: true,
        packets_sent: 10,
        packets_dropped: 2,
        queued_frames: 7,
    };
    assert_eq!(
        sender_console_line(sender),
        "send   active=1 packets=10 dropped=2 queued_frames=7"
    );
    let rows: Vec<(&str, String)> = sender_metrics(sender)
        .into_iter()
        .map(|row| (row.label, row.value))
        .collect();
    assert_eq!(
        rows,
        vec![
            ("Packets", "10".to_string()),
            ("Dropped", "2".to_string()),
            ("Queued", "7".to_string()),
        ]
    );
    let receiver = ReceiverStatus {
        active: true,
        primed: true,
        packets_received: 11,
        packets_lost: 4,
        underruns: 5,
        queued_samples: 96,
        target_buffer_samples: 384,
        ..ReceiverStatus::default()
    };
    assert_eq!(
        receiver_console_line(receiver),
        "recv   active=1 primed=1 packets=11 lost=4 underruns=5 queued=96 target=384"
    );
    let rows: Vec<(&str, String)> = receiver_metrics(receiver)
        .into_iter()
        .map(|row| (row.label, row.value))
        .collect();
    assert_eq!(
        rows,
        vec![
            ("Packets", "11".to_string()),
            ("Lost", "4".to_string()),
            ("Underruns", "5".to_string()),
            ("Queued", "96".to_string()),
            ("Target", "384".to_string()),
            ("Primed", "yes".to_string()),
        ]
    );
}

#[test]
fn a_running_stream_is_described() {
    let rows: Vec<(&str, String)> = runtime_rows(&opened(), receiving(), 3_725)
        .into_iter()
        .map(|row| (row.label, row.value))
        .collect();
    assert_eq!(
        rows,
        vec![
            ("Mode", "RECEIVE".to_string()),
            ("Transport", "MULTICAST".to_string()),
            ("Device", "USB".to_string()),
            ("Audio", "4ch 44100Hz".to_string()),
            ("Buffer", "Default".to_string()),
            ("Uptime", "01:02:05".to_string()),
        ]
    );
    assert_eq!(uptime_text(0), "00:00:00");
    assert_eq!(uptime_text(360_000), "100:00:00");
    assert_eq!(mode_title(StreamMode::Send), "SEND");
    assert_eq!(transport_title(StreamTransport::Unicast), "UNICAST");
    assert_eq!(bool_label(false), "no");
    assert_eq!(
        endpoint_label(StreamMode::Receive, StreamTransport::Unicast),
        "Source"
    );
    assert_eq!(
        endpoint_label(StreamMode::Send, StreamTransport::Unicast),
        "Destination"
    );
    assert_eq!(
        endpoint_label(StreamMode::Send, StreamTransport::Multicast),
        "Group"
    );
    assert_eq!(
        stream_summary(StreamTransport::Unicast, 2, "10.0.0.1", 5004),
        "UNICAST 2ch 10.0.0.1:5004"
    );
    assert!(HELP_TEXT.starts_with("SomeNET standalone app\n\nUsage:\n"));
}

#[test]
fn a_run_ends_in_time() {
    let mut wait = ShutdownWait::new(500, Some(2));
    assert_eq!(wait.step(true, 500), WaitStep::ShowStatus);
    assert_eq!(wait.step(true, 1_499), WaitStep::Wait);
    assert_eq!(wait.step(true, 1_500), WaitStep::ShowStatus);
    assert_eq!(wait.step(true, 2_499), WaitStep::Wait);
    assert_eq!(wait.step(true, 2_500), WaitStep::Stop);
    let mut endless = ShutdownWait::new(0, None);
    assert_eq!(endless.step(true, 9_000_000), WaitStep::ShowStatus);
    assert_eq!(endless.step(false, 9_000_050), WaitStep::Stop);
}
