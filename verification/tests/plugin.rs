use somenet::arrangement::{
    arrangement_channel_count, speaker_arrangement_for_channels, VST3_MAX_CHANNELS,
};
use somenet::block::AudioBlock;
use somenet::params::{
    default_stream_parameters, next_apply_token, parameter_from_text, parameter_from_wide,
    parameter_spec, parameter_text, stream_parameter_edits, PlainParameters, PARAM_APPLY_SEQ,
    PARAM_CHANNELS, PARAM_CLOCK_REF, PARAM_COUNT, PARAM_ENABLED, PARAM_IP_1, PARAM_IP_4,
    PARAM_MODE, PARAM_PORT, PARAM_PTP_DOMAIN, PARAM_TRANSPORT,
};
use somenet::processor::{
    bus_count, bus_name, collect_source_channels, copy_input_to_output, BusSide, ProcessOrder,
    StreamProcessor,
};
use somenet::receiver::{ReceiverStatus, WorkerOrder};
use somenet::rtp::ReceiverPacket;
use somenet::sender::SenderStatus;
use somenet::status::{
    channel_order, receiver_status_text, runtime_monitor_enabled, runtime_status_file,
    runtime_status_lines, sdp_text, sender_status_text, status_due, SDP_FILE_NAME,
};
use somenet::stream::{
    ClockReference, Endpoint, StreamLevel, StreamMode, StreamParameters, StreamTransport,
};
use somenet::wide::{copy_cstring, copy_wstring, encode_utf16, read_wide, wide_null};
use std::collections::VecDeque;
use vst3::Steinberg::Vst::SpeakerArr;

fn bits(sample: f32) -> u32 {
    sample.to_bits()
}

fn stereo_sender() -> StreamParameters {
    StreamParameters {
        enabled: true,
        mode: StreamMode::Send,
        transport: StreamTransport::Unicast,
        channels: 2,
        port: 5004,
        ip: [127, 0, 0, 1],
        clock_reference: ClockReference::Local,
        ptp_domain: 0,
    }
}

fn group_receiver() -> StreamParameters {
    StreamParameters {
        mode: StreamMode::Receive,
        transport: StreamTransport::Multicast,
        channels: 8,
        ip: [239, 69, 1, 30],
        ..stereo_sender()
    }
}

#[test]
fn apply_reset_token_clears_sender_state() {
    let mut processor = StreamProcessor::new(1);
    let params = StreamParameters {
        enabled: true,
        mode: StreamMode::Send,
        transport: StreamTransport::Unicast,
        channels: 2,
        port: 5004,
        ip: [127, 0, 0, 1],
        clock_reference: ClockReference::Local,
        ptp_domain: 0,
    };
    let mut input_channels = AudioBlock::new();
    input_channels.connect(0, vec![bits(0.1_f32); 24]);
    input_channels.connect(1, vec![bits(-0.1_f32); 24]);

    processor
        .sender
        .push_audio(params, 48_000, &input_channels, 24, 1);
    assert_eq!(processor.sender.status_snapshot().queued_frames, 24);

    let spec = parameter_spec(PARAM_APPLY_SEQ).unwrap();
    processor.apply_parameter_change(PARAM_APPLY_SEQ, spec.step_of_plain(1));

    assert_eq!(processor.sender.status_snapshot().queued_frames, 0);
}

#[test]
fn parameters_are_described() {
    for id in 0..PARAM_COUNT as u32 {
        let spec = parameter_spec(id).unwrap();
        assert_eq!(spec.id, id);
        assert!(spec.min <= spec.default && spec.default <= spec.max);
    }
    assert!(parameter_spec(12).is_none());
    let port = parameter_spec(PARAM_PORT).unwrap();
    assert_eq!((port.title, port.short_title, port.units), ("Port", "Port", ""));
    assert_eq!((port.min, port.max, port.default), (1, 65_535, 5004));
    assert_eq!(port.step_count(), 65_534);
    let channels = parameter_spec(PARAM_CHANNELS).unwrap();
    assert_eq!(
        (channels.title, channels.short_title, channels.units),
        ("Channels", "Ch", "ch")
    );
    assert_eq!((channels.min, channels.max, channels.default), (1, 96, 2));
    assert_eq!(parameter_spec(PARAM_IP_1).unwrap().default, 127);
    assert_eq!(parameter_spec(PARAM_IP_4).unwrap().default, 1);
    assert_eq!(parameter_spec(PARAM_PTP_DOMAIN).unwrap().max, 127);
    assert_eq!(parameter_spec(PARAM_TRANSPORT).unwrap().short_title, "Xport");
}

#[test]
fn steps_and_plain_values_go_both_ways() {
    let channels = parameter_spec(PARAM_CHANNELS).unwrap();
    assert_eq!(channels.plain_at_step(0), 1);
    assert_eq!(channels.plain_at_step(95), 96);
    assert_eq!(channels.plain_at_step(4000), 96);
    assert_eq!(channels.step_of_plain(96), 95);
    assert_eq!(channels.step_of_plain(0), 0);
    assert_eq!(channels.step_of_plain(200), 95);
    assert_eq!(channels.clamp(0), 1);
    assert_eq!(channels.clamp(17), 17);
}

#[test]
fn normalised_values_come_back() {
    for id in 0..PARAM_COUNT as u32 {
        let spec = parameter_spec(id).unwrap();
        let span = (spec.max - spec.min) as f64;
        let mut plain = spec.min;
        while plain <= spec.max {
            let normalised = spec.step_of_plain(plain) as f64 / span;
            let step = (normalised.clamp(0.0, 1.0) * span).round() as u32;
            assert_eq!(spec.plain_at_step(step), plain);
            plain += 1;
        }
    }
}

#[test]
fn plain_values_hold_the_stream() {
    let params = group_receiver();
    let mut plain = PlainParameters::from_stream(params, 7);
    assert_eq!(plain.parameters(), params);
    assert_eq!(plain.apply_seq, 7);
    assert!(plain.set(PARAM_PORT, 6000));
    assert!(plain.set(PARAM_CLOCK_REF, 1));
    assert!(plain.set(PARAM_PTP_DOMAIN, 5));
    assert!(!plain.set(99, 1));
    let edited = plain.parameters();
    assert_eq!(edited.port, 6000);
    assert_eq!(edited.clock_reference, ClockReference::Ptp);
    assert_eq!(edited.ptp_domain, 5);
    assert_eq!(
        default_stream_parameters(),
        StreamParameters {
            enabled: false,
            ..stereo_sender()
        }
    );
}

#[test]
fn values_have_texts() {
    for (id, plain, text) in [
        (PARAM_ENABLED, 0, "Off"),
        (PARAM_ENABLED, 1, "On"),
        (PARAM_MODE, 0, "Send"),
        (PARAM_MODE, 1, "Receive"),
        (PARAM_TRANSPORT, 0, "Unicast"),
        (PARAM_TRANSPORT, 1, "Multicast"),
        (PARAM_PORT, 5004, "5004"),
        (PARAM_CHANNELS, 96, "96"),
    ] {
        assert_eq!(parameter_text(id, plain).unwrap(), text);
        assert_eq!(parameter_from_text(id, text), Some(plain));
    }
    assert!(parameter_text(99, 0).is_none());
}

#[test]
fn texts_have_values() {
    for (id, text, plain) in [
        (PARAM_ENABLED, " TRUE ", Some(1)),
        (PARAM_ENABLED, "false", Some(0)),
        (PARAM_ENABLED, "maybe", None),
        (PARAM_MODE, "Sender", Some(0)),
        (PARAM_MODE, "recv", Some(1)),
        (PARAM_MODE, "2", None),
        (PARAM_TRANSPORT, "uni", Some(0)),
        (PARAM_TRANSPORT, "MULTI", Some(1)),
        (PARAM_CHANNELS, "\u{3000}+200\n", Some(96)),
        (PARAM_CHANNELS, "0", Some(1)),
        (PARAM_PORT, "65536", Some(65_535)),
        (PARAM_PORT, "4294967296", None),
        (PARAM_PORT, "-1", None),
        (PARAM_PORT, "", None),
        (99, "1", None),
    ] {
        assert_eq!(parameter_from_text(id, text), plain, "{text}");
    }
}

#[test]
fn wide_texts_have_values() {
    let wide: Vec<u16> = " Multicast\n".encode_utf16().collect();
    assert_eq!(parameter_from_wide(PARAM_TRANSPORT, &wide), Some(1));
    let number: Vec<u16> = "5005".encode_utf16().collect();
    assert_eq!(parameter_from_wide(PARAM_PORT, &number), Some(5005));
    assert_eq!(parameter_from_wide(PARAM_PORT, &[0x35, 0xd800]), None);
}

#[test]
fn wide_texts_are_read() {
    let text = "a\u{e9}\u{4e2d}\u{1f600}z";
    let mut wide: Vec<u16> = text.encode_utf16().collect();
    assert_eq!(encode_utf16(text), wide);
    assert_eq!(read_wide(&wide), Some(text.to_string()));
    wide.push(0);
    assert_eq!(wide_null(text), wide);
    assert_eq!(read_wide(&[0xdc00, 65]), None);
    assert_eq!(read_wide(&[65, 66]), Some("AB".to_string()));
    assert_eq!(read_wide(&[]), Some(String::new()));
}

#[test]
fn texts_are_placed_with_an_end() {
    let mut buffer = [9_u16; 8];
    copy_wstring("Input", &mut buffer);
    assert_eq!(buffer, [73, 110, 112, 117, 116, 0, 9, 9]);
    let mut short = [9_u16; 3];
    copy_wstring("Output", &mut short);
    assert_eq!(short, [79, 117, 0]);
    let mut exact = [9_u16; 5];
    copy_wstring("Input", &mut exact);
    assert_eq!(exact, [73, 110, 112, 117, 0]);
    let mut bytes = [9_u8; 5];
    copy_cstring("Fx", &mut bytes);
    assert_eq!(bytes, [70, 120, 0, 9, 9]);
    copy_cstring("VST 3", &mut bytes);
    assert_eq!(bytes, [86, 83, 84, 32, 0]);
    let mut held = [9_u8; 4];
    copy_cstring("a\0b", &mut held);
    assert_eq!(held, [0, 9, 9, 9]);
    let mut accent = [9_u8; 4];
    copy_cstring("\u{e9}", &mut accent);
    assert_eq!(accent, [0xc3, 0xa9, 0, 9]);
}

#[test]
fn apply_tokens_go_round() {
    assert_eq!(next_apply_token(0), 1);
    assert_eq!(next_apply_token(65_534), 65_535);
    assert_eq!(next_apply_token(65_535), 0);
}

#[test]
fn a_stream_is_handed_on_as_edits() {
    let edits = stream_parameter_edits(group_receiver());
    let mut plain = PlainParameters::from_stream(default_stream_parameters(), 0);
    for (id, value) in edits {
        assert!(plain.set(id, value));
    }
    assert_eq!(
        plain.parameters(),
        StreamParameters {
            enabled: false,
            ..group_receiver()
        }
    );
}

#[test]
fn arrangements_follow_the_channels() {
    for (channels, arrangement) in [
        (0, SpeakerArr::kMono),
        (1, SpeakerArr::kMono),
        (2, SpeakerArr::kStereo),
        (3, SpeakerArr::k30Music),
        (4, SpeakerArr::k40Music),
        (5, SpeakerArr::k50),
        (6, SpeakerArr::k51),
        (7, SpeakerArr::k70Cine),
        (8, SpeakerArr::k71Cine),
        (9, 0x1ff),
        (63, u64::MAX >> 1),
        (64, u64::MAX),
        (96, u64::MAX),
    ] {
        assert_eq!(speaker_arrangement_for_channels(channels), arrangement);
    }
    for channels in 1..=64_u8 {
        let arrangement = speaker_arrangement_for_channels(channels);
        assert_eq!(arrangement_channel_count(arrangement), channels as i32);
    }
    assert_eq!(arrangement_channel_count(0), 0);
    assert_eq!(VST3_MAX_CHANNELS, 64);
}

#[test]
fn buses_are_described() {
    let mut processor = StreamProcessor::new(1);
    assert_eq!(bus_name(BusSide::Input), "Input");
    assert_eq!(bus_name(BusSide::Output), "Output");
    assert_eq!(bus_count(true, Some(BusSide::Input)), 1);
    assert_eq!(bus_count(false, Some(BusSide::Input)), 0);
    assert_eq!(bus_count(true, None), 0);
    assert_eq!(
        processor.bus_channel_count(true, Some(BusSide::Output), 0),
        Some(64)
    );
    assert_eq!(processor.bus_channel_count(true, Some(BusSide::Output), 1), None);
    assert_eq!(processor.bus_channel_count(false, Some(BusSide::Output), 0), None);
    assert!(processor.set_bus_arrangements(&[SpeakerArr::kStereo], &[0b101]));
    assert_eq!(
        processor.bus_arrangement(Some(BusSide::Input), 0),
        Some(SpeakerArr::kStereo)
    );
    assert_eq!(processor.bus_arrangement(Some(BusSide::Output), 0), Some(0b101));
    assert_eq!(processor.bus_arrangement(Some(BusSide::Output), 2), None);
    assert_eq!(processor.bus_arrangement(None, 0), None);
    assert!(!processor.set_bus_arrangements(&[SpeakerArr::kStereo], &[1]));
    assert!(!processor.set_bus_arrangements(&[0], &[0]));
    assert!(!processor.set_bus_arrangements(&[1, 1], &[1]));
    assert_eq!(processor.bus_arrangement(Some(BusSide::Output), 0), Some(0b101));
}

#[test]
fn changes_reach_the_processor() {
    let mut processor = StreamProcessor::new(1);
    assert!(processor.apply_parameter_change(PARAM_ENABLED, 1));
    assert!(processor.apply_parameter_change(PARAM_MODE, 1));
    assert!(processor.apply_parameter_change(PARAM_TRANSPORT, 1));
    assert!(processor.apply_parameter_change(PARAM_CHANNELS, 5));
    assert!(!processor.apply_parameter_change(PARAM_PORT, 5005));
    assert!(!processor.apply_parameter_change(PARAM_IP_1, 239));
    assert!(!processor.apply_parameter_change(99, 1));
    let params = processor.parameters();
    assert!(params.enabled);
    assert_eq!(params.mode, StreamMode::Receive);
    assert_eq!(params.transport, StreamTransport::Multicast);
    assert_eq!(params.channels, 6);
    assert_eq!(params.port, 5006);
    assert_eq!(params.ip, [239, 0, 0, 1]);
    assert_eq!(processor.input_arrangement, SpeakerArr::k51);
    processor.apply_state(stereo_sender());
    assert_eq!(processor.parameters(), stereo_sender());
    assert_eq!(processor.output_arrangement, SpeakerArr::kStereo);
}

#[test]
fn inputs_are_passed_through() {
    let input = Some(vec![vec![1, 2, 3]]);
    let mut output = vec![vec![9, 9, 9], vec![8, 8, 8]];
    copy_input_to_output(&input, &mut output, 3);
    assert_eq!(output, vec![vec![1, 2, 3], vec![0, 0, 0]]);
    copy_input_to_output(&None, &mut output, 3);
    assert_eq!(output, vec![vec![0, 0, 0], vec![0, 0, 0]]);
}

#[test]
fn sources_are_inputs_or_else_outputs() {
    let input = Some(vec![vec![1, 2]]);
    let output = Some(vec![vec![3, 4], vec![5, 6]]);
    let from_input = collect_source_channels(&input, &output);
    assert_eq!(from_input.sample(0, 1), 2);
    assert!(from_input.channels[1].is_none());
    let from_output = collect_source_channels(&Some(vec![]), &output);
    assert_eq!(from_output.sample(1, 0), 5);
    let from_nothing = collect_source_channels(&None, &None);
    assert!(from_nothing.channels.iter().all(|channel| channel.is_none()));
}

#[test]
fn a_sending_processor_passes_audio_on() {
    let mut processor = StreamProcessor::new(1);
    processor.apply_state(stereo_sender());
    processor.setup_processing(48_000);
    let input = Some(vec![vec![bits(0.5); 48], vec![bits(-0.5); 48]]);
    let mut output = Some(vec![vec![0; 48], vec![0; 48]]);
    let mut arrivals: VecDeque<ReceiverPacket> = VecDeque::new();
    let order = processor.process(&input, &mut output, 48, &mut arrivals, false, 0, 77);
    assert!(matches!(order, ProcessOrder::Send(WorkerOrder::Start(_))));
    assert_eq!(output, input);
    let packet = processor.sender.take_packet().unwrap();
    assert_eq!(packet.as_bytes()[8..12], [0, 0, 0, 77]);
    let order = processor.process(&input, &mut output, 48, &mut arrivals, false, 0, 78);
    assert!(matches!(order, ProcessOrder::Send(WorkerOrder::Keep)));
}

#[test]
fn a_receiving_processor_fills_its_outputs() {
    let mut processor = StreamProcessor::new(1);
    processor.apply_state(group_receiver());
    processor.setup_processing(48_000);
    let input = Some(vec![vec![bits(0.5); 4]]);
    let mut output = Some(vec![vec![1; 4]; 8]);
    let mut arrivals: VecDeque<ReceiverPacket> = VecDeque::new();
    let order = processor.process(&input, &mut output, 4, &mut arrivals, false, 0, 77);
    assert!(matches!(order, ProcessOrder::Receive(WorkerOrder::Start(_))));
    assert_eq!(output, Some(vec![vec![0; 4]; 8]));
    processor.reset();
    assert_eq!(processor.receiver.status_snapshot(), ReceiverStatus::default());
}

#[test]
fn status_is_reported_now_and_again() {
    let mut processor = StreamProcessor::new(1);
    processor.apply_state(stereo_sender());
    processor.setup_processing(96_000);
    let snapshot = processor.runtime_status(1_000).unwrap();
    assert_eq!(snapshot.params, stereo_sender());
    assert_eq!(snapshot.sample_rate_hz, 96_000);
    assert!(processor.runtime_status(1_249).is_none());
    assert!(processor.runtime_status(1_250).is_some());
    assert!(processor.runtime_status(900).is_none());
    assert!(status_due(0, 250));
    assert!(!status_due(0, 249));
}

#[test]
fn reports_have_their_lines() {
    let status = SenderStatus {
        active: true,
        packets_sent: 1200,
        packets_dropped: 3,
        queued_frames: 17,
    };
    assert_eq!(
        sender_status_text(stereo_sender(), 44_100, status),
        "mode=send\ntransport=unicast\nactive=1\nsample_rate=44100\nchannels=2\n\
destination=127.0.0.1:5004\npackets_sent=1200\npackets_dropped=3\nqueued_frames=17\n\
warning=44.1 kHz is supported but not ST 2110-30 compliant\n"
    );
    let status = ReceiverStatus {
        active: true,
        primed: false,
        packets_received: 1,
        packets_dropped: 2,
        packets_invalid: 12,
        packets_invalid_header: 3,
        packets_invalid_format: 4,
        packets_invalid_frame_mismatch: 5,
        last_invalid_samples: 6,
        packets_lost: 7,
        packets_out_of_order: 8,
        queued_samples: 9,
        target_buffer_samples: 10,
        last_callback_frames: 11,
        underruns: 13,
        drift_corrections: 14,
    };
    let text = receiver_status_text(group_receiver(), 48_000, status);
    assert_eq!(
        text,
        "mode=receive\ntransport=multicast\nactive=1\nprimed=0\nsample_rate=48000\nchannels=8\n\
listen=0.0.0.0:5004\ngroup=239.69.1.30\npackets_received=1\npackets_dropped=2\n\
packets_invalid=12\npackets_invalid_header=3\npackets_invalid_format=4\n\
packets_invalid_frame_mismatch=5\nlast_invalid_samples=6\npackets_lost=7\n\
packets_out_of_order=8\nqueued_samples=9\ntarget_buffer_samples=10\nlast_callback_frames=11\n\
underruns=13\ndrift_corrections=14\nwarning=\n"
    );
    assert_eq!(
        runtime_status_lines(group_receiver(), Some(text.as_str())),
        [
            "Recv a=1 p=0 t=multicast sr=48000 ch=8 ep=239.69.1.30".to_string(),
            "rx=1 drop=2 bad=12 lost=7 ooo=8".to_string(),
            "q=9 tgt=10 cb=11 underrun=13 adj=14".to_string(),
            "bad_hdr=3 bad_fmt=4 bad_frames=5 last_bad_samples=6".to_string(),
        ]
    );
}

#[test]
fn an_editor_shows_what_a_sender_reports() {
    let status = SenderStatus {
        active: true,
        packets_sent: 1200,
        packets_dropped: 3,
        queued_frames: 17,
    };
    let text = sender_status_text(stereo_sender(), 48_000, status);
    assert_eq!(
        runtime_status_lines(stereo_sender(), Some(text.as_str())),
        [
            "Runtime: SEND active=1 sr=48000 ch=2 endpoint=127.0.0.1:5004".to_string(),
            "Transport=unicast".to_string(),
            "Packets sent=1200 dropped=3 packet_fill_frames=17".to_string(),
            "Receiver-side counters are not shown here. Match channels and sample rate exactly."
                .to_string(),
        ]
    );
    let warned = sender_status_text(stereo_sender(), 44_100, status);
    assert_eq!(
        runtime_status_lines(stereo_sender(), Some(warned.as_str()))[3],
        "44.1 kHz is supported but not ST 2110-30 compliant"
    );
}

#[test]
fn an_editor_without_a_report_waits() {
    assert_eq!(
        runtime_status_lines(group_receiver(), None),
        [
            "Runtime: waiting for audio callback".to_string(),
            "Mode=Receive Transport=Multicast Ch=8 Port=5004".to_string(),
            "group=239.69.1.30".to_string(),
            "Counters will appear once the host is actively processing audio.".to_string(),
        ]
    );
}

#[test]
fn reports_are_read_line_by_line() {
    let text = "mode=receive\r\nno key here\nlisten=a=b\nwarning=hot\nqueued_frames=3\nmode=other";
    let lines = runtime_status_lines(stereo_sender(), Some(text));
    assert_eq!(lines[0], "Recv a= p= t= sr= ch= ep=a=b");
    assert_eq!(lines[2], "hot");
    let empty = runtime_status_lines(stereo_sender(), Some(""));
    assert_eq!(empty[1], "rx= drop= bad= lost= ooo=");
}

#[test]
fn reports_have_their_own_files() {
    assert_eq!(
        runtime_status_file(4711, stereo_sender()),
        "somethingnet-status-4711-send-5004-2-0-127-0-1.txt"
    );
    assert_eq!(
        runtime_status_file(1, group_receiver()),
        "somethingnet-status-1-recv-5004-8-1-239-69-286.txt"
    );
}

#[test]
fn monitoring_is_asked_for() {
    assert!(!runtime_monitor_enabled(None));
    assert!(runtime_monitor_enabled(Some("1")));
    assert!(!runtime_monitor_enabled(Some("0")));
    assert!(!runtime_monitor_enabled(Some("")));
    assert_eq!(SDP_FILE_NAME, "somethingnet.sdp");
}

#[test]
fn sessions_are_announced() {
    let destination = Endpoint {
        ip: [239, 69, 1, 30],
        port: 5004,
    };
    let text = sdp_text(
        [192, 168, 1, 9],
        destination,
        StreamLevel::A48k,
        group_receiver(),
    );
    assert_eq!(
        text,
        "v=0\r\no=- 0 0 IN IP4 192.168.1.9\r\ns=SomeNET Sender\r\nc=IN IP4 239.69.1.30\r\n\
t=0 0\r\nm=audio 5004 RTP/AVP 96\r\na=rtpmap:96 L24/48000/8\r\n\
a=fmtp:96 channel-order=SMPTE2110.(U08)\r\na=ptime:1\r\na=maxptime:1\r\na=sendonly\r\n\
a=ts-refclk:local\r\n\
a=mediaclk:direct=0\r\na=x-conformance:Level A\r\n"
    );
    let disciplined = StreamParameters {
        clock_reference: ClockReference::Ptp,
        ptp_domain: 12,
        ..group_receiver()
    };
    let text = sdp_text([10, 0, 0, 1], destination, StreamLevel::AX96k, disciplined);
    assert!(text.contains("a=rtpmap:96 L24/96000/8\r\n"));
    assert!(text.ends_with(
        "a=sendonly\r\na=ts-refclk:ptp=IEEE1588-2008:traceable\r\na=mediaclk:direct=0\r\na=x-somenet-ptp-domain:12\r\na=x-conformance:Level AX\r\n"
    ));
    assert_eq!(channel_order(2), "U02");
    assert_eq!(channel_order(96), "U96");
    assert_eq!(channel_order(200), "U200");
}
