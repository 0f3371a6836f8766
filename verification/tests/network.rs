use somenet::block::AudioBlock;
use somenet::pacer::{PacerStep, SenderPacer, MAX_SENDER_BACKLOG_PACKETS, SEND_STARTUP_PACKETS};
use somenet::playout::{
    ReceiverAudioState, MAX_CONCEALMENT_PACKETS_PER_GAP, MAX_PACKETS_PER_CALLBACK,
    STALL_SILENCE_TIMEOUT, STREAM_IDLE_TIMEOUT,
};
use somenet::receiver::{
    receive_datagram, Intake, NetworkReceiver, ReceiverStatus, WorkerOrder, RECEIVE_QUEUE_PACKETS,
};
use somenet::ring::SampleRing;
use somenet::rtp::{
    classify_invalid_packet, decode_rtp_l24_packet, decode_rtp_l24_packet_fixed,
    decode_rtp_l24_packet_strict, parse_rtp_sequence, InvalidPacketKind, ReceiverPacket, SentPacket,
};
use somenet::sample::{read_l24_sample, write_l24_sample_vec};
use somenet::sender::{seed_ssrc, NetworkSender, SenderStatus, SEND_QUEUE_PACKETS};
use somenet::state::{decode_read_state, decode_state, encode_state, STATE_SIZE};
use somenet::status::warning_text;
use somenet::stream::{
    bounded_wait_until, playout_adjustment_frames, stream_level, target_buffer_samples,
    ActiveStream, ClockReference, Endpoint, StreamLevel, StreamMode, StreamParameters,
    StreamTransport, MAX_BUFFER_PACKETS, MAX_CHANNELS, MAX_PACKET_SAMPLES, PAYLOAD_TYPE_L24,
    STARTUP_BUFFER_PACKETS, WORKER_POLL_INTERVAL,
};
use std::collections::VecDeque;

const MILLISECOND: u64 = 1_000_000;

fn bits(sample: f32) -> u32 {
    sample.to_bits()
}

fn value(bits: u32) -> f32 {
    f32::from_bits(bits)
}

fn stereo(mode: StreamMode, ip: [u8; 4]) -> StreamParameters {
    StreamParameters {
        enabled: true,
        mode,
        transport: StreamTransport::Unicast,
        channels: 2,
        port: 5004,
        ip,
        clock_reference: ClockReference::Local,
        ptp_domain: 0,
    }
}

fn block(channels: Vec<Vec<f32>>) -> AudioBlock {
    let mut block = AudioBlock::new();
    for (index, samples) in channels.into_iter().enumerate() {
        block.connect(index, samples.into_iter().map(bits).collect());
    }
    block
}

fn heard(block: &AudioBlock, channel: usize) -> Vec<f32> {
    match &block.channels[channel] {
        Some(samples) => samples.iter().map(|sample| value(*sample)).collect(),
        None => Vec::new(),
    }
}

fn received(sequence: u16, samples: &[f32]) -> ReceiverPacket {
    let mut packet = ReceiverPacket {
        sequence,
        sample_count: samples.len(),
        samples: [0; MAX_PACKET_SAMPLES],
    };
    for (slot, sample) in packet.samples.iter_mut().zip(samples) {
        *slot = bits(*sample);
    }
    packet
}

#[test]
fn channel_mode_limits_follow_level_a_and_ax() {
    assert_eq!(stream_level(48_000, 96), Some(StreamLevel::A48k));
    assert_eq!(stream_level(44_100, 96), Some(StreamLevel::Legacy44k1));
    assert_eq!(stream_level(96_000, 96), Some(StreamLevel::AX96k));
    assert_eq!(stream_level(48_000, 97), None);
    assert_eq!(stream_level(192_000, 2), None);
}

#[test]
fn state_round_trip_is_stable() {
    let original = StreamParameters {
        enabled: true,
        mode: StreamMode::Receive,
        transport: StreamTransport::Multicast,
        channels: 8,
        port: 5004,
        ip: [192, 168, 1, 42],
        clock_reference: ClockReference::Ptp,
        ptp_domain: 0,
    };

    let encoded = encode_state(original);
    let decoded = decode_state(&encoded).unwrap();
    assert_eq!(decoded, original);
}

#[test]
fn state_round_trip_preserves_96_channels() {
    let original = StreamParameters {
        enabled: true,
        mode: StreamMode::Receive,
        transport: StreamTransport::Unicast,
        channels: 96,
        port: 5004,
        ip: [10, 1, 2, 3],
        clock_reference: ClockReference::Local,
        ptp_domain: 0,
    };

    let encoded = encode_state(original);
    let decoded = decode_state(&encoded).unwrap();
    assert_eq!(decoded.channels, 96);
    assert_eq!(decoded, original);
}

#[test]
fn decode_v1_state_defaults_to_sender_mode() {
    let bytes = [b'R', b'S', b'T', b'3', 1, 1, 2, 0x8c, 0x13, 127, 0, 0, 1, 0];
    let decoded = decode_state(&bytes).unwrap();
    assert_eq!(decoded.mode, StreamMode::Send);
    assert_eq!(decoded.transport, StreamTransport::Unicast);
    assert_eq!(decoded.port, 5004);
    assert_eq!(decoded.channels, 2);
}

#[test]
fn decode_v2_state_defaults_transport_to_unicast() {
    let bytes = [
        b'R', b'S', b'T', b'3', 2, 1, 1, 6, 0x8c, 0x13, 10, 20, 30, 40,
    ];
    let decoded = decode_state(&bytes).unwrap();
    assert_eq!(decoded.mode, StreamMode::Receive);
    assert_eq!(decoded.transport, StreamTransport::Unicast);
    assert_eq!(decoded.port, 5004);
    assert_eq!(decoded.channels, 6);
    assert_eq!(decoded.ip, [10, 20, 30, 40]);
}

#[test]
fn states_that_are_not_known_are_refused() {
    let mut bytes = encode_state(stereo(StreamMode::Send, [10, 0, 0, 1]));
    assert!(decode_state(&bytes[..16]).is_none());
    assert!(decode_state(&bytes[..13]).is_none());
    assert!(decode_state(&[]).is_none());
    bytes[4] = 5;
    assert!(decode_state(&bytes).is_none());
    bytes[4] = 0;
    assert!(decode_state(&bytes).is_none());
    bytes[4] = 4;
    bytes[0] = b'X';
    assert!(decode_state(&bytes).is_none());
}

#[test]
fn third_version_states_hold_no_clock() {
    let mut bytes = encode_state(StreamParameters {
        clock_reference: ClockReference::Ptp,
        ptp_domain: 9,
        ..stereo(StreamMode::Receive, [10, 0, 0, 1])
    });
    bytes[4] = 3;
    let decoded = decode_state(&bytes[..15]).unwrap();
    assert_eq!(decoded, stereo(StreamMode::Receive, [10, 0, 0, 1]));
    assert!(decode_state(&bytes[..14]).is_none());
}

#[test]
fn saved_values_are_brought_into_range() {
    let odd = StreamParameters {
        channels: 0,
        port: 0,
        ptp_domain: 200,
        ..stereo(StreamMode::Send, [1, 2, 3, 4])
    };
    let encoded = encode_state(odd);
    assert_eq!(encoded[16], 127);
    let decoded = decode_state(&encoded).unwrap();
    assert_eq!(decoded.channels, 1);
    assert_eq!(decoded.port, 1);
    assert_eq!(decoded.ptp_domain, 127);
    let mut many = encoded;
    many[8] = 200;
    assert_eq!(decode_state(&many).unwrap().channels, 96);
}

#[test]
fn a_state_is_read_whole_or_not_at_all() {
    let bytes: [u8; STATE_SIZE] = encode_state(stereo(StreamMode::Send, [10, 0, 0, 1]));
    assert!(decode_read_state(&bytes, 17).is_some());
    assert!(decode_read_state(&bytes, 16).is_none());
    assert!(decode_read_state(&bytes, 14).is_none());
    assert!(decode_read_state(&bytes, -1).is_none());
    let mut legacy = [0_u8; STATE_SIZE];
    legacy[..14].copy_from_slice(&[
        b'R', b'S', b'T', b'3', 1, 1, 2, 0x8c, 0x13, 127, 0, 0, 1, 0,
    ]);
    assert_eq!(decode_read_state(&legacy, 14).unwrap().port, 5004);
}

#[test]
fn multicast_requires_group_address_and_accepts_any_source() {
    let params = StreamParameters {
        enabled: true,
        mode: StreamMode::Receive,
        transport: StreamTransport::Multicast,
        channels: 2,
        port: 5004,
        ip: [239, 69, 1, 30],
        clock_reference: ClockReference::Local,
        ptp_domain: 0,
    };

    assert!(params.sane_listener());
    assert!(params.sane_destination());
    assert!(params.accepts_source(Endpoint {
        ip: [10, 0, 0, 9],
        port: 5004
    }));
    let no_group = StreamParameters {
        ip: [10, 0, 0, 9],
        ..params
    };
    assert!(!no_group.sane_listener());
    assert!(!no_group.sane_destination());
}

#[test]
fn unicast_rejects_unspecified_destination() {
    let params = StreamParameters {
        enabled: true,
        mode: StreamMode::Send,
        transport: StreamTransport::Unicast,
        channels: 2,
        port: 5004,
        ip: [0, 0, 0, 0],
        clock_reference: ClockReference::Local,
        ptp_domain: 0,
    };

    assert!(!params.sane_destination());
}

#[test]
fn an_expected_source_excludes_others() {
    let expecting = stereo(StreamMode::Receive, [10, 0, 0, 5]);
    assert!(expecting.accepts_source(Endpoint {
        ip: [10, 0, 0, 5],
        port: 40_000
    }));
    assert!(!expecting.accepts_source(Endpoint {
        ip: [10, 0, 0, 6],
        port: 5004
    }));
    let open = stereo(StreamMode::Receive, [0, 0, 0, 0]);
    assert!(open.accepts_source(Endpoint {
        ip: [10, 0, 0, 6],
        port: 5004
    }));
}

#[test]
fn endpoints_follow_the_parameters() {
    let params = stereo(StreamMode::Send, [10, 0, 0, 5]);
    assert_eq!(
        params.destination(),
        Endpoint {
            ip: [10, 0, 0, 5],
            port: 5004
        }
    );
    assert_eq!(
        params.listen_addr(),
        Endpoint {
            ip: [0, 0, 0, 0],
            port: 5004
        }
    );
    assert_eq!(params.endpoint_label(), "destination");
    assert_eq!(
        stereo(StreamMode::Receive, [10, 0, 0, 5]).endpoint_label(),
        "expected_source"
    );
    assert_eq!(params.group_addr(), None);
}

#[test]
fn codes_come_back() {
    assert_eq!(StreamMode::from_u32(StreamMode::Receive.as_u8() as u32), StreamMode::Receive);
    assert_eq!(StreamMode::from_u32(7), StreamMode::Send);
    assert_eq!(
        StreamTransport::from_u32(StreamTransport::Multicast.as_u8() as u32),
        StreamTransport::Multicast
    );
    assert_eq!(
        ClockReference::from_u32(ClockReference::Ptp.as_u8() as u32),
        ClockReference::Ptp
    );
    assert_eq!(ClockReference::Ptp.status_name(), "ptp");
    assert_eq!(ClockReference::Local.status_name(), "local");
}

#[test]
fn l24_codec_round_trips_signed_samples() {
    let mut bytes = Vec::new();
    write_l24_sample_vec(&mut bytes, bits(1.0));
    write_l24_sample_vec(&mut bytes, bits(-1.0));
    assert_eq!(&bytes[0..3], &[0x7f, 0xff, 0xff]);
    assert_eq!(&bytes[3..6], &[0x80, 0x00, 0x00]);
    assert!((value(read_l24_sample(&bytes[0..3])) - 0.999_999_9).abs() < 0.0001);
    assert!((value(read_l24_sample(&bytes[3..6])) + 1.0).abs() < 0.0001);
}

#[test]
fn samples_are_quantised_as_arithmetic_says() {
    let mut state = 0x1234_5678_u32;
    for _ in 0..20_000 {
        state = state.wrapping_mul(1_664_525).wrapping_add(1_013_904_223);
        let sample = (state as f64 / u32::MAX as f64 * 2.2 - 1.1) as f32;
        let mut bytes = Vec::new();
        write_l24_sample_vec(&mut bytes, bits(sample));
        let expected: i32 = if sample >= 1.0 {
            8_388_607
        } else if sample <= -1.0 {
            -8_388_608
        } else {
            ((sample * 8_388_608.0).round() as i32).min(8_388_607)
        };
        let word = expected.to_be_bytes();
        assert_eq!(bytes, word[1..4].to_vec());
        let back = value(read_l24_sample(&bytes));
        let signed = ((bytes[0] as i32) << 24 | (bytes[1] as i32) << 16 | (bytes[2] as i32) << 8) >> 8;
        assert_eq!(back, signed as f32 / 8_388_608.0);
    }
}

#[test]
fn odd_samples_are_quantised_like_any_other() {
    for (sample, expected) in [
        (0.0_f32, [0, 0, 0]),
        (-0.0, [0, 0, 0]),
        (f32::NAN, [0, 0, 0]),
        (f32::INFINITY, [0x7f, 0xff, 0xff]),
        (f32::NEG_INFINITY, [0x80, 0, 0]),
        (1.0e-30, [0, 0, 0]),
        (0.5, [0x40, 0, 0]),
        (-0.5, [0xc0, 0, 0]),
        (1.0 / 16_777_216.0, [0, 0, 1]),
        (-1.0 / 16_777_216.0, [0xff, 0xff, 0xff]),
        (1.0 - 1.0 / 16_777_216.0, [0x7f, 0xff, 0xff]),
        (-1.0 + 1.0 / 16_777_216.0, [0x80, 0, 0]),
    ] {
        let mut bytes = Vec::new();
        write_l24_sample_vec(&mut bytes, bits(sample));
        assert_eq!(bytes, expected.to_vec());
    }
}

#[test]
fn the_largest_sample_below_full_scale_stays_positive() {
    let sample = f32::from_bits(0x3f7f_ffff);
    let mut bytes = Vec::new();
    write_l24_sample_vec(&mut bytes, bits(sample));
    assert_eq!(bytes, vec![0x7f, 0xff, 0xff]);
    let carried = value(read_l24_sample(&bytes));
    assert_eq!(carried, 8_388_607.0 / 8_388_608.0);
    assert_eq!(sample - carried, 0.5 / 8_388_608.0);
}

#[test]
fn a_sample_is_carried_the_same_twice() {
    let mut once = Vec::new();
    write_l24_sample_vec(&mut once, bits(0.123_456_7));
    let carried = read_l24_sample(&once);
    let mut twice = Vec::new();
    write_l24_sample_vec(&mut twice, carried);
    assert_eq!(once, twice);
    assert_eq!(read_l24_sample(&twice), carried);
}

fn packet_head(first: u8) -> Vec<u8> {
    vec![first, PAYLOAD_TYPE_L24, 0, 1, 0, 0, 0, 1, 0, 0, 0, 1]
}

#[test]
fn decode_rtp_l24_packet_extracts_interleaved_samples() {
    let mut packet = packet_head(0x80);
    write_l24_sample_vec(&mut packet, bits(0.5));
    write_l24_sample_vec(&mut packet, bits(-0.5));

    let decoded = decode_rtp_l24_packet(&packet, 2).unwrap();
    assert_eq!(decoded.len(), 2);
    assert!((value(decoded[0]) - 0.5).abs() < 0.0001);
    assert!((value(decoded[1]) + 0.5).abs() < 0.0001);
}

#[test]
fn strict_decoder_rejects_channel_count_mismatch() {
    let mut packet = packet_head(0x80);
    for _ in 0..(48 * 4) {
        write_l24_sample_vec(&mut packet, bits(0.25));
    }

    assert!(decode_rtp_l24_packet_strict(&packet, 2, 48).is_none());
    assert!(decode_rtp_l24_packet_strict(&packet, 4, 48).is_some());
}

#[test]
fn decoder_rejects_unsupported_rtp_extensions() {
    let mut packet = packet_head(0x90);
    for _ in 0..(48 * 2) {
        write_l24_sample_vec(&mut packet, bits(0.25));
    }

    assert!(decode_rtp_l24_packet_strict(&packet, 2, 48).is_none());
    assert!(matches!(
        classify_invalid_packet(&packet, 2, 48),
        InvalidPacketKind::Format
    ));
}

#[test]
fn decoder_steps_over_sources_and_padding() {
    let mut packet = packet_head(0xa1);
    packet.extend_from_slice(&[1, 2, 3, 4]);
    write_l24_sample_vec(&mut packet, bits(0.5));
    write_l24_sample_vec(&mut packet, bits(0.25));
    packet.extend_from_slice(&[0, 2]);
    let decoded = decode_rtp_l24_packet(&packet, 2).unwrap();
    assert_eq!(decoded, vec![bits(0.5), bits(0.25)]);
    let fixed = decode_rtp_l24_packet_fixed(&packet, 2, 1).unwrap();
    assert_eq!(fixed.sample_count, 2);
    assert_eq!(fixed.samples[0], bits(0.5));
    assert!(decode_rtp_l24_packet_fixed(&packet, 2, 2).is_none());
}

#[test]
fn invalid_packets_are_told_apart() {
    assert_eq!(classify_invalid_packet(&[0x80; 4], 2, 48), InvalidPacketKind::Header);
    let mut wrong_version = packet_head(0x40);
    wrong_version.extend_from_slice(&[0; 6]);
    assert_eq!(
        classify_invalid_packet(&wrong_version, 2, 48),
        InvalidPacketKind::Header
    );
    let mut wrong_type = packet_head(0x80);
    wrong_type[1] = 97;
    assert_eq!(classify_invalid_packet(&wrong_type, 2, 48), InvalidPacketKind::Format);
    let mut uneven = packet_head(0x80);
    uneven.extend_from_slice(&[0; 5]);
    assert_eq!(classify_invalid_packet(&uneven, 2, 48), InvalidPacketKind::Format);
    let mut short = packet_head(0x80);
    short.extend_from_slice(&[0; 12]);
    assert_eq!(
        classify_invalid_packet(&short, 2, 48),
        InvalidPacketKind::FrameMismatch { actual_samples: 4 }
    );
    assert_eq!(parse_rtp_sequence(&[0x80, 96, 1]), None);
    let mut numbered = packet_head(0x80);
    numbered[2] = 0x12;
    numbered[3] = 0x34;
    assert_eq!(parse_rtp_sequence(&numbered), Some(0x1234));
}

#[test]
fn sent_packets_are_laid_out_for_the_wire() {
    let mut packet = SentPacket::new();
    packet.push_sample(bits(0.5));
    packet.stamp(0x0102, 0x0304_0506, 0x0708_090a);
    assert_eq!(
        packet.as_bytes(),
        &[0x80, 96, 1, 2, 3, 4, 5, 6, 7, 8, 9, 10, 0x40, 0, 0]
    );
    packet.clear_payload();
    assert_eq!(packet.as_bytes().len(), 12);
}

#[test]
fn sender_reset_clears_partial_packet_state() {
    let mut sender = NetworkSender::new(1);
    let params = StreamParameters {
        enabled: true,
        mode: StreamMode::Send,
        transport: StreamTransport::Unicast,
        channels: 2,
        port: 5004,
        ip: [127, 0, 0, 1],
        clock_reference: ClockReference::Local,
        ptp_domain: 0,
    };
    let input_channels = block(vec![vec![0.1_f32; 24], vec![-0.1_f32; 24]]);

    sender.push_audio(params, 48_000, &input_channels, 24, 1);
    assert_eq!(sender.status_snapshot().queued_frames, 24);
    sender.reset();
    let status = sender.status_snapshot();
    assert_eq!(status.queued_frames, 0);
    assert_eq!(status.packets_sent, 0);
}

#[test]
fn a_sender_numbers_and_stamps_its_packets() {
    let mut sender = NetworkSender::new(1);
    let params = stereo(StreamMode::Send, [127, 0, 0, 1]);
    let inputs = block(vec![vec![0.25; 100], vec![-0.25; 100]]);
    let order = sender.push_audio(params, 48_000, &inputs, 100, 0xaabb_ccdd);
    assert!(matches!(order, WorkerOrder::Start(_)));
    assert_eq!(sender.status_snapshot().queued_frames, 4);
    let first = sender.take_packet().unwrap();
    assert_eq!(first.as_bytes().len(), 12 + 96 * 3);
    assert_eq!(
        &first.as_bytes()[..12],
        &[0x80, 96, 0, 0, 0, 0, 0, 0, 0xaa, 0xbb, 0xcc, 0xdd]
    );
    assert_eq!(&first.as_bytes()[12..18], &[0x20, 0, 0, 0xe0, 0, 0]);
    let second = sender.take_packet().unwrap();
    assert_eq!(
        &second.as_bytes()[..12],
        &[0x80, 96, 0, 1, 0, 0, 0, 48, 0xaa, 0xbb, 0xcc, 0xdd]
    );
    assert!(sender.take_packet().is_none());
    let order = sender.push_audio(params, 48_000, &inputs, 44, 7);
    assert!(matches!(order, WorkerOrder::Keep));
    let third = sender.take_packet().unwrap();
    assert_eq!(third.as_bytes()[3], 2);
    assert_eq!(third.as_bytes()[7], 96);
    assert_eq!(sender.status_snapshot().queued_frames, 0);
}

#[test]
fn callbacks_of_any_size_make_the_same_packets() {
    let params = stereo(StreamMode::Send, [127, 0, 0, 1]);
    let left: Vec<f32> = (0..300).map(|i| i as f32 / 400.0).collect();
    let right: Vec<f32> = (0..300).map(|i| -(i as f32) / 500.0).collect();
    let mut whole = NetworkSender::new(1);
    whole.push_audio(params, 48_000, &block(vec![left.clone(), right.clone()]), 300, 9);
    let mut parts = NetworkSender::new(1);
    let mut from = 0;
    for size in [1, 64, 7, 128, 100] {
        let to = from + size;
        let inputs = block(vec![left[from..to].to_vec(), right[from..to].to_vec()]);
        parts.push_audio(params, 48_000, &inputs, size, 9);
        from = to;
    }
    assert_eq!(from, 300);
    for _ in 0..6 {
        let a = whole.take_packet().unwrap();
        let b = parts.take_packet().unwrap();
        assert_eq!(a.as_bytes(), b.as_bytes());
    }
    assert!(whole.take_packet().is_none());
    assert_eq!(whole.status_snapshot().queued_frames, 12);
    assert_eq!(parts.status_snapshot().queued_frames, 12);
}

fn ramp(first: usize, frames: usize) -> Vec<f32> {
    (first..first + frames).map(|frame| frame as f32 / 2_048.0).collect()
}

#[test]
fn packets_go_on_where_the_last_callback_ended() {
    let mut sender = NetworkSender::new(1);
    let params = stereo(StreamMode::Send, [127, 0, 0, 1]);
    let stream = ActiveStream {
        params,
        level: StreamLevel::A48k,
    };
    let source = Endpoint {
        ip: [127, 0, 0, 1],
        port: 40_000,
    };
    let mut at = 0;
    let mut packets = 0;
    for size in [70, 5, 90, 123, 48] {
        let inputs = block(vec![ramp(at, size), vec![0.0; size]]);
        sender.push_audio(params, 48_000, &inputs, size, 9);
        at += size;
        while let Some(packet) = sender.take_packet() {
            let Intake::Packet(packet) = receive_datagram(stream, source, packet.as_bytes()) else {
                panic!("a packet of the stream was not taken");
            };
            assert_eq!(packet.sequence as usize, packets);
            let left: Vec<f32> = (0..48).map(|frame| value(packet.samples[2 * frame])).collect();
            assert_eq!(left, ramp(48 * packets, 48));
            packets += 1;
        }
        assert_eq!(packets, at / 48);
        assert_eq!(sender.status_snapshot().queued_frames, at % 48);
    }
}

#[test]
fn the_first_packets_find_room() {
    let mut sender = NetworkSender::new(1);
    let params = stereo(StreamMode::Send, [127, 0, 0, 1]);
    let frames = 48 * (SEND_QUEUE_PACKETS + 3);
    let inputs = block(vec![vec![0.5; frames], vec![0.5; frames]]);
    sender.push_audio(params, 48_000, &inputs, frames, 9);
    for sequence in 0..SEND_QUEUE_PACKETS {
        let packet = sender.take_packet().unwrap();
        assert_eq!(packet.as_bytes()[2] as usize * 256 + packet.as_bytes()[3] as usize, sequence);
    }
    assert!(sender.take_packet().is_none());
    sender.push_audio(params, 48_000, &inputs, 48, 9);
    let packet = sender.take_packet().unwrap();
    assert_eq!(&packet.as_bytes()[2..4], &[1, 3]);
}

#[test]
fn channels_that_are_missing_are_sent_as_silence() {
    let mut sender = NetworkSender::new(1);
    let params = stereo(StreamMode::Send, [127, 0, 0, 1]);
    sender.push_audio(params, 48_000, &block(vec![vec![0.5; 48]]), 48, 1);
    let packet = sender.take_packet().unwrap();
    assert_eq!(&packet.as_bytes()[12..18], &[0x40, 0, 0, 0, 0, 0]);
}

#[test]
fn packets_without_room_are_counted_as_dropped() {
    let mut sender = NetworkSender::new(1);
    let params = stereo(StreamMode::Send, [127, 0, 0, 1]);
    let inputs = block(vec![vec![0.5; 48], vec![0.5; 48]]);
    for _ in 0..SEND_QUEUE_PACKETS + 3 {
        sender.push_audio(params, 48_000, &inputs, 48, 1);
    }
    assert_eq!(sender.status_snapshot().packets_dropped, 3);
    let first = sender.take_packet().unwrap();
    assert_eq!(&first.as_bytes()[2..4], &[0, 0]);
    sender.recycle(first);
    sender.push_audio(params, 48_000, &inputs, 48, 1);
    assert_eq!(sender.status_snapshot().packets_dropped, 3);
    sender.note_worker_gone();
    sender.push_audio(params, 48_000, &inputs, 48, 1);
    assert_eq!(sender.status_snapshot().packets_dropped, 4);
}

#[test]
fn a_sender_that_is_off_sends_nothing() {
    let mut sender = NetworkSender::new(1);
    let off = StreamParameters {
        enabled: false,
        ..stereo(StreamMode::Send, [127, 0, 0, 1])
    };
    let inputs = block(vec![vec![0.5; 48], vec![0.5; 48]]);
    assert!(matches!(
        sender.push_audio(off, 48_000, &inputs, 48, 1),
        WorkerOrder::Keep
    ));
    let nowhere = stereo(StreamMode::Send, [0, 0, 0, 0]);
    sender.push_audio(nowhere, 48_000, &inputs, 48, 1);
    let odd_rate = stereo(StreamMode::Send, [127, 0, 0, 1]);
    sender.push_audio(odd_rate, 22_050, &inputs, 48, 1);
    assert!(sender.take_packet().is_none());
    assert_eq!(sender.status_snapshot(), SenderStatus::default());
}

#[test]
fn a_reset_sender_starts_over() {
    let mut sender = NetworkSender::new(1);
    let params = stereo(StreamMode::Send, [127, 0, 0, 1]);
    let inputs = block(vec![vec![0.5; 60], vec![0.5; 60]]);
    sender.push_audio(params, 48_000, &inputs, 60, 1);
    sender.reset();
    assert!(matches!(
        sender.push_audio(params, 48_000, &inputs, 48, 2),
        WorkerOrder::Start(_)
    ));
    let packet = sender.take_packet().unwrap();
    assert_eq!(&packet.as_bytes()[2..12], &[0, 0, 0, 0, 0, 0, 0, 0, 0, 2]);
}

#[test]
fn worker_counters_are_reported() {
    let mut sender = NetworkSender::new(1);
    sender.note_active(true);
    sender.note_sent(true);
    sender.note_sent(true);
    sender.note_sent(false);
    let status = sender.status_snapshot();
    assert!(status.active);
    assert_eq!(status.packets_sent, 2);
    assert_eq!(status.packets_dropped, 1);
    let mut receiver = NetworkReceiver::new();
    receiver.note_active(true);
    receiver.note_invalid(InvalidPacketKind::Header);
    receiver.note_invalid(InvalidPacketKind::Format);
    receiver.note_invalid(InvalidPacketKind::FrameMismatch { actual_samples: 44 });
    receiver.note_dropped();
    let status = receiver.status_snapshot();
    assert_eq!(status.packets_invalid, 3);
    assert_eq!(status.packets_invalid_header, 1);
    assert_eq!(status.packets_invalid_format, 1);
    assert_eq!(status.packets_invalid_frame_mismatch, 1);
    assert_eq!(status.last_invalid_samples, 44);
    assert_eq!(status.packets_dropped, 1);
    receiver.reset();
    assert_eq!(receiver.status_snapshot(), ReceiverStatus::default());
}

#[test]
fn sources_are_seeded_from_the_clock() {
    let rotated = 0x6543_2100_u32.rotate_left(13);
    assert_eq!(seed_ssrc(0x1_6543_2100, 0), rotated);
    assert_eq!(seed_ssrc(0x1_6543_2100, 999_999_999), 999_999_999 ^ rotated);
}

#[test]
fn concealment_packets_repeat_last_frame() {
    let mut state = ReceiverAudioState::new();
    state.last_frame[0] = bits(0.75);
    state.last_frame[1] = bits(-0.5);
    state.enqueue_concealment_packets(1, StreamLevel::A48k, 2);

    assert_eq!(state.queued_samples(), 96);
    assert_eq!(state.pop_sample(), Some(bits(0.75)));
    assert_eq!(state.pop_sample(), Some(bits(-0.5)));
    assert_eq!(state.pop_sample(), Some(bits(0.75)));
    assert_eq!(state.pop_sample(), Some(bits(-0.5)));
}

#[test]
fn target_buffer_scales_above_single_callback() {
    assert_eq!(target_buffer_samples(StreamLevel::A48k, 4, 512), 2_304);
    assert_eq!(target_buffer_samples(StreamLevel::A48k, 2, 128), 384);
    assert_eq!(
        target_buffer_samples(StreamLevel::Legacy44k1, 2, 512),
        1_144
    );
    assert_eq!(target_buffer_samples(StreamLevel::A48k, 16, 512), 9_216);
    assert_eq!(target_buffer_samples(StreamLevel::A48k, 96, 64), 13_824);
}

#[test]
fn playout_adjustment_stretches_when_queue_runs_low() {
    assert_eq!(playout_adjustment_frames(400, 768, 48, 511, 512), -1);
}

#[test]
fn playout_adjustment_compresses_when_queue_runs_high() {
    assert_eq!(playout_adjustment_frames(900, 768, 48, 513, 512), 1);
}

#[test]
fn playout_adjustment_stays_neutral_near_target() {
    assert_eq!(playout_adjustment_frames(760, 768, 48, 512, 512), 0);
}

#[test]
fn warning_text_marks_44100_as_non_standard() {
    assert!(warning_text(44_100, 2, ClockReference::Local).contains("not ST 2110-30 compliant"));
    assert!(
        warning_text(48_000, 16, ClockReference::Local).contains("outside ST 2110-30 Level A")
    );
    assert_eq!(warning_text(48_000, 8, ClockReference::Local), "");
    assert!(warning_text(48_000, 96, ClockReference::Local).contains("transport-only"));
    assert!(warning_text(48_000, 2, ClockReference::Ptp).contains("PTP mode"));
}

#[test]
fn warnings_are_separated_by_bars() {
    assert_eq!(
        warning_text(96_000, 65, ClockReference::Local),
        "More than 4 channels at 96 kHz is outside ST 2110-30 Level AX | \
More than 64 channels is transport-only; the VST3 wrapper is capped at 64 channels | \
High-channel RTP packets can exceed standard Ethernet MTU; use wired low-jitter networking"
    );
}

#[test]
fn stalled_receiver_detects_missing_source() {
    let now = 10_000 * MILLISECOND;
    let mut state = ReceiverAudioState::new();
    state.last_frame[0] = bits(0.75);
    state.primed = true;
    state.last_packet_at = Some(now - STALL_SILENCE_TIMEOUT - MILLISECOND);

    assert!(state.is_stalled(now));
    state.last_packet_at = Some(now - STALL_SILENCE_TIMEOUT + MILLISECOND);
    assert!(!state.is_stalled(now));
}

#[test]
fn clear_stalled_stream_flushes_buffer_and_mutes() {
    let mut state = ReceiverAudioState::new();
    state.primed = true;
    state.last_frame[0] = bits(0.5);
    state.enqueue_packet(ReceiverPacket {
        sequence: 1,
        sample_count: 2,
        samples: [bits(0.25); MAX_PACKET_SAMPLES],
    });
    let mut outputs = block(vec![vec![1.0_f32; 8]]);
    state.clear_stalled_stream(&mut outputs, 1, 8);

    assert_eq!(state.queued_samples(), 0);
    assert!(!state.primed);
    assert!(heard(&outputs, 0).iter().all(|sample| *sample == 0.0));
}

#[test]
fn an_idle_stream_is_forgotten() {
    let now = 10_000 * MILLISECOND;
    let mut state = ReceiverAudioState::new();
    state.last_sequence = Some(7);
    state.primed = true;
    state.last_packet_at = Some(now - STREAM_IDLE_TIMEOUT);
    state.handle_idle_timeout(now - 1);
    assert_eq!(state.last_sequence, Some(7));
    state.handle_idle_timeout(now);
    assert_eq!(state.last_sequence, None);
    assert_eq!(state.last_packet_at, None);
    assert!(!state.primed);
}

#[test]
fn sequence_numbers_tell_gaps_from_late_packets() {
    let mut state = ReceiverAudioState::new();
    assert_eq!(state.accept_sequence(None), None);
    assert_eq!(state.accept_sequence(Some(65_535)), Some(0));
    assert_eq!(state.accept_sequence(Some(0)), Some(0));
    assert_eq!(state.accept_sequence(Some(0)), None);
    assert_eq!(state.packets_out_of_order, 1);
    assert_eq!(state.accept_sequence(Some(4)), Some(3));
    assert_eq!(state.packets_lost, 3);
    assert_eq!(
        state.accept_sequence(Some(104)),
        Some(MAX_CONCEALMENT_PACKETS_PER_GAP)
    );
    assert_eq!(state.packets_lost, 102);
    assert_eq!(state.accept_sequence(Some(100)), None);
    assert_eq!(state.accept_sequence(Some(104 + 1 + 0x7fff)), Some(8));
    assert_eq!(state.accept_sequence(Some(105)), None);
    assert_eq!(state.accept_sequence(Some(104)), Some(8));
}

#[test]
fn the_queue_gives_up_its_oldest_samples() {
    let mut state = ReceiverAudioState::new();
    let now = 1;
    for sequence in 0..MAX_BUFFER_PACKETS as u16 + 2 {
        let samples = [sequence as f32; 96];
        state.receive_packet(received(sequence, &samples), now, StreamLevel::A48k, 2);
    }
    assert_eq!(state.queued_samples(), 96 * MAX_BUFFER_PACKETS);
    assert_eq!(state.pop_sample(), Some(bits(2.0)));
}

#[test]
fn a_ring_keeps_the_newest_samples() {
    let mut ring = SampleRing::new();
    assert_eq!(ring.pop(), None);
    let samples: Vec<u32> = (0..9_216).collect();
    for _ in 0..128 {
        ring.push_block(&samples, samples.len());
    }
    assert_eq!(ring.queued(), 9_216 * 128);
    ring.push_block(&[7, 8], 2);
    assert_eq!(ring.queued(), 9_216 * 128);
    assert_eq!(ring.pop(), Some(2));
    ring.drop_oldest(9_216 * 128 - 3);
    assert_eq!(ring.pop(), Some(7));
    assert_eq!(ring.pop(), Some(8));
    assert_eq!(ring.pop(), None);
}

fn stereo_frames(count: usize, first: usize) -> Vec<f32> {
    (first..first + count)
        .flat_map(|frame| [frame as f32, -(frame as f32)])
        .collect()
}

fn loaded(frames: usize) -> (ReceiverAudioState, StreamParameters) {
    let params = stereo(StreamMode::Receive, [0, 0, 0, 0]);
    let mut state = ReceiverAudioState::new();
    state.connected = true;
    state.stream = Some(ActiveStream {
        params,
        level: StreamLevel::A48k,
    });
    let mut sequence = 0;
    let mut frame = 0;
    while frame < frames {
        let count = 48.min(frames - frame);
        state.receive_packet(
            received(sequence, &stereo_frames(count, frame)),
            1,
            StreamLevel::A48k,
            2,
        );
        sequence += 1;
        frame += count;
    }
    (state, params)
}

fn pull(state: &mut ReceiverAudioState, params: StreamParameters, frames: usize) -> Vec<f32> {
    let mut outputs = block(vec![vec![9.0; frames], vec![9.0; frames]]);
    let mut arrivals = VecDeque::new();
    state.pull_block(
        params,
        StreamLevel::A48k,
        &mut outputs,
        frames,
        &mut arrivals,
        false,
        2,
    );
    heard(&outputs, 0)
}

#[test]
fn a_primed_receiver_plays_in_order() {
    let (mut state, params) = loaded(144);
    let played = pull(&mut state, params, 96);
    let expected: Vec<f32> = (0..96).map(|frame| frame as f32).collect();
    assert_eq!(played, expected);
    assert_eq!(state.queued_samples(), 96);
    assert_eq!(state.drift_corrections, 0);
    assert_eq!(value(state.last_frame[1]), -95.0);
}

#[test]
fn a_receiver_waits_for_its_target() {
    let (mut state, params) = loaded(96);
    assert_eq!(pull(&mut state, params, 96), vec![0.0; 96]);
    assert!(!state.primed);
    assert_eq!(state.queued_samples(), 192);
    assert_eq!(state.target_buffer_samples, 288);
}

#[test]
fn a_full_receiver_skips_one_frame_in_the_middle() {
    let (mut state, params) = loaded(240);
    let played = pull(&mut state, params, 96);
    let expected: Vec<f32> = (0..48).chain(49..97).map(|frame| frame as f32).collect();
    assert_eq!(played, expected);
    assert_eq!(state.drift_corrections, 1);
    assert_eq!(state.queued_samples(), 480 - 97 * 2);
}

#[test]
fn a_low_receiver_plays_one_frame_twice_in_the_middle() {
    let (mut state, params) = loaded(95);
    state.primed = true;
    let played = pull(&mut state, params, 96);
    let expected: Vec<f32> = (0..48).chain(47..95).map(|frame| frame as f32).collect();
    assert_eq!(played, expected);
    assert_eq!(state.drift_corrections, 1);
    assert_eq!(state.underruns, 0);
    assert_eq!(state.queued_samples(), 0);
}

#[test]
fn an_empty_receiver_underruns() {
    let (mut state, params) = loaded(10);
    state.primed = true;
    let played = pull(&mut state, params, 96);
    let expected: Vec<f32> = (0..96)
        .map(|frame| if frame < 10 { frame as f32 } else { 0.0 })
        .collect();
    assert_eq!(played, expected);
    assert_eq!(state.underruns, 1);
    assert_eq!(pull(&mut state, params, 96), vec![0.0; 96]);
    assert_eq!(state.underruns, 2);
}

#[test]
fn a_callback_takes_only_so_many_packets() {
    let (mut state, _) = loaded(0);
    let mut arrivals: VecDeque<ReceiverPacket> = (0..70)
        .map(|sequence| received(sequence, &[0.5; 96]))
        .collect();
    state.receive_into_queue(StreamLevel::A48k, 2, &mut arrivals, true, 5);
    assert_eq!(arrivals.len(), 70 - MAX_PACKETS_PER_CALLBACK);
    assert_eq!(state.packets_received, MAX_PACKETS_PER_CALLBACK as u64);
    state.receive_into_queue(StreamLevel::A48k, 2, &mut arrivals, true, 5);
    assert!(arrivals.is_empty());
    assert!(!state.connected);
    assert_eq!(state.packets_received, 0);
}

#[test]
fn gaps_are_filled_with_the_last_frame() {
    let (mut state, params) = loaded(144);
    pull(&mut state, params, 96);
    state.receive_packet(
        received(5, &stereo_frames(48, 240)),
        3,
        StreamLevel::A48k,
        2,
    );
    assert_eq!(state.packets_lost, 2);
    assert_eq!(state.queued_samples(), (48 + 96 + 48) * 2);
    for frame in 96..144 {
        assert_eq!(state.pop_sample().map(value), Some(frame as f32));
        state.pop_sample();
    }
    for _ in 0..96 {
        assert_eq!(state.pop_sample().map(value), Some(95.0));
        assert_eq!(state.pop_sample().map(value), Some(-95.0));
    }
    assert_eq!(state.pop_sample().map(value), Some(240.0));
}

#[test]
fn datagrams_are_sorted_on_arrival() {
    let stream = ActiveStream {
        params: stereo(StreamMode::Receive, [10, 0, 0, 5]),
        level: StreamLevel::A48k,
    };
    let home = Endpoint {
        ip: [10, 0, 0, 5],
        port: 9,
    };
    let away = Endpoint {
        ip: [10, 0, 0, 6],
        port: 9,
    };
    let mut packet = packet_head(0x80);
    for _ in 0..96 {
        write_l24_sample_vec(&mut packet, bits(0.25));
    }
    assert!(matches!(receive_datagram(stream, away, &packet), Intake::Foreign));
    match receive_datagram(stream, home, &packet) {
        Intake::Packet(taken) => {
            assert_eq!(taken.sequence, 1);
            assert_eq!(taken.sample_count, 96);
            assert_eq!(taken.samples[95], bits(0.25));
        }
        _ => panic!("a packet of the stream is taken"),
    }
    assert!(matches!(
        receive_datagram(stream, home, &packet[..4]),
        Intake::Invalid(InvalidPacketKind::Header)
    ));
    assert!(matches!(
        receive_datagram(stream, home, &packet[..packet.len() - 6]),
        Intake::Invalid(InvalidPacketKind::FrameMismatch { actual_samples: 94 })
    ));
}

#[test]
fn a_receiver_that_is_off_is_silent() {
    let mut receiver = NetworkReceiver::new();
    let off = StreamParameters {
        enabled: false,
        ..stereo(StreamMode::Receive, [0, 0, 0, 0])
    };
    let mut outputs = block(vec![vec![1.0; 16], vec![1.0; 16], vec![1.0; 16]]);
    let mut arrivals = VecDeque::new();
    let order = receiver.pull_audio(off, 48_000, &mut outputs, 8, &mut arrivals, false, 0);
    assert!(matches!(order, WorkerOrder::Keep));
    for channel in 0..3 {
        assert_eq!(heard(&outputs, channel), vec![0.0; 16]);
    }
}

#[test]
fn joining_a_stream_gives_up_what_came_before() {
    let mut receiver = NetworkReceiver::new();
    let params = stereo(StreamMode::Receive, [0, 0, 0, 0]);
    let mut outputs = block(vec![vec![1.0; 48], vec![1.0; 48], vec![1.0; 48]]);
    let mut arrivals: VecDeque<ReceiverPacket> = VecDeque::new();
    arrivals.push_back(received(3, &[0.5; 96]));
    let order = receiver.pull_audio(params, 48_000, &mut outputs, 48, &mut arrivals, true, 0);
    assert!(matches!(order, WorkerOrder::Start(_)));
    assert!(arrivals.is_empty());
    assert_eq!(heard(&outputs, 0), vec![0.0; 48]);
    assert_eq!(heard(&outputs, 2), vec![1.0; 48]);
    let order = receiver.pull_audio(params, 48_000, &mut outputs, 48, &mut arrivals, false, 0);
    assert!(matches!(order, WorkerOrder::Keep));
    let other = StreamParameters {
        port: 5006,
        ..params
    };
    let order = receiver.pull_audio(other, 48_000, &mut outputs, 48, &mut arrivals, false, 0);
    assert!(matches!(order, WorkerOrder::Start(_)));
}

#[test]
fn a_reset_receiver_joins_again() {
    let mut receiver = NetworkReceiver::new();
    let params = stereo(StreamMode::Receive, [0, 0, 0, 0]);
    let mut outputs = block(vec![vec![0.0; 48], vec![0.0; 48]]);
    let mut arrivals = VecDeque::new();
    receiver.pull_audio(params, 48_000, &mut outputs, 48, &mut arrivals, false, 0);
    receiver.reset();
    let order = receiver.pull_audio(params, 48_000, &mut outputs, 48, &mut arrivals, false, 0);
    assert!(matches!(order, WorkerOrder::Start(_)));
}

fn filled_packet(mark: u16) -> Box<SentPacket> {
    let mut packet = Box::new(SentPacket::new());
    packet.stamp(mark, 0, 0);
    packet
}

#[test]
fn a_pacer_starts_with_enough_packets_and_keeps_time() {
    let mut pacer = SenderPacer::new(StreamLevel::A48k);
    let start = 1_000 * MILLISECOND;
    assert_eq!(pacer.decide(start), PacerStep::Fill(WORKER_POLL_INTERVAL));
    pacer.append(filled_packet(0));
    assert_eq!(pacer.decide(start), PacerStep::Fill(WORKER_POLL_INTERVAL));
    pacer.append(filled_packet(1));
    assert_eq!(SEND_STARTUP_PACKETS, 2);
    assert_eq!(pacer.decide(start), PacerStep::Send);
    assert_eq!(pacer.front().unwrap().as_bytes()[3], 0);
    assert!(pacer.complete_send(start).is_some());
    assert_eq!(pacer.decide(start + 400_000), PacerStep::Wait(600_000));
    assert_eq!(pacer.decide(start + 3 * MILLISECOND), PacerStep::Send);
    assert_eq!(pacer.front().unwrap().as_bytes()[3], 1);
    pacer.complete_send(start + 3 * MILLISECOND);
    pacer.append(filled_packet(2));
    assert_eq!(pacer.decide(start + 3 * MILLISECOND), PacerStep::Send);
    pacer.complete_send(start + 3 * MILLISECOND);
    assert_eq!(pacer.decide(start + 3 * MILLISECOND), PacerStep::Again);
    pacer.append(filled_packet(3));
    assert_eq!(
        pacer.decide(start + 4 * MILLISECOND),
        PacerStep::Fill(WORKER_POLL_INTERVAL)
    );
}

#[test]
fn a_pacer_gives_up_its_oldest_packets() {
    let mut pacer = SenderPacer::new(StreamLevel::A48k);
    for mark in 0..MAX_SENDER_BACKLOG_PACKETS as u16 {
        assert!(pacer.accept(filled_packet(mark)).is_none());
    }
    let dropped = pacer.accept(filled_packet(999)).unwrap();
    assert_eq!(&dropped.as_bytes()[2..4], &[0, 0]);
    assert_eq!(pacer.front().unwrap().as_bytes()[3], 1);
    assert_eq!(pacer.drain_next().unwrap().as_bytes().len(), 12);
    assert_eq!(pacer.front().unwrap().as_bytes()[3], 2);
}

#[test]
fn waits_are_bounded() {
    assert_eq!(bounded_wait_until(5, 9), 0);
    assert_eq!(bounded_wait_until(9, 5), 4);
    assert_eq!(bounded_wait_until(WORKER_POLL_INTERVAL + 9, 5), WORKER_POLL_INTERVAL);
}

#[test]
fn sender_and_receiver_round_trip_over_loopback() {
    let mut sender = NetworkSender::new(1);
    let mut receiver = NetworkReceiver::new();
    let params = StreamParameters {
        enabled: true,
        mode: StreamMode::Send,
        transport: StreamTransport::Unicast,
        channels: 2,
        port: 5004,
        ip: [127, 0, 0, 1],
        clock_reference: ClockReference::Local,
        ptp_domain: 0,
    };
    let stream = ActiveStream {
        params,
        level: StreamLevel::A48k,
    };
    let loopback = Endpoint {
        ip: [127, 0, 0, 1],
        port: 40_000,
    };
    let inputs = block(vec![vec![0.25_f32; 48], vec![-0.25_f32; 48]]);
    let mut outputs = block(vec![vec![0.0_f32; 48], vec![0.0_f32; 48]]);
    let mut pacer = SenderPacer::new(StreamLevel::A48k);
    let mut arrivals: VecDeque<ReceiverPacket> = VecDeque::new();
    let mut now = 1_000 * MILLISECOND;

    receiver.pull_audio(params, 48_000, &mut outputs, 48, &mut arrivals, false, now);
    for _ in 0..SEND_STARTUP_PACKETS.max(STARTUP_BUFFER_PACKETS) {
        sender.push_audio(params, 48_000, &inputs, 48, 1);
    }

    let mut received_audio = false;
    for _ in 0..50 {
        sender.push_audio(params, 48_000, &inputs, 48, 1);
        for _ in 0..5 {
            now += MILLISECOND;
            while let Some(packet) = sender.take_packet() {
                pacer.accept(packet);
            }
            while pacer.decide(now) == PacerStep::Send {
                match receive_datagram(stream, loopback, pacer.front().unwrap().as_bytes()) {
                    Intake::Packet(packet) => arrivals.push_back(packet),
                    _ => receiver.note_dropped(),
                }
                sender.note_sent(true);
                let packet = pacer.complete_send(now).unwrap();
                sender.recycle(packet);
            }
        }
        receiver.pull_audio(params, 48_000, &mut outputs, 48, &mut arrivals, false, now);
        received_audio = heard(&outputs, 0)
            .iter()
            .any(|sample| (sample - 0.25).abs() < 0.01)
            && heard(&outputs, 1)
                .iter()
                .any(|sample| (sample + 0.25).abs() < 0.01);
        if received_audio {
            break;
        }
    }

    assert!(received_audio);

    let sender_status = sender.status_snapshot();
    let receiver_status = receiver.status_snapshot();
    assert!(sender_status.packets_sent >= 1);
    assert!(receiver_status.packets_received >= 1);
    assert_eq!(receiver_status.underruns, 0);
    assert_eq!(receiver_status.packets_dropped, 0);
    assert_eq!(MAX_CHANNELS, 96);
}

#[test]
fn callbacks_play_on_where_the_last_one_ended() {
    let mut sender = NetworkSender::new(1);
    let mut receiver = NetworkReceiver::new();
    let params = stereo(StreamMode::Send, [127, 0, 0, 1]);
    let stream = ActiveStream {
        params,
        level: StreamLevel::A48k,
    };
    let source = Endpoint {
        ip: [127, 0, 0, 1],
        port: 40_000,
    };
    let mut arrivals: VecDeque<ReceiverPacket> = VecDeque::new();
    let mut now = 1_000 * MILLISECOND;
    let mut outputs = block(vec![vec![9.0; 96], vec![9.0; 96]]);
    receiver.pull_audio(params, 48_000, &mut outputs, 96, &mut arrivals, false, now);
    let mut given = 0;
    for callback in 0..20 {
        let frames = if callback == 0 { 144 } else { 96 };
        let inputs = block(vec![ramp(given, frames), vec![-0.5; frames]]);
        sender.push_audio(params, 48_000, &inputs, frames, 9);
        given += frames;
        while let Some(packet) = sender.take_packet() {
            let intake = receive_datagram(stream, source, packet.as_bytes());
            receiver.take_in(intake, &mut arrivals);
        }
        now += 2 * MILLISECOND;
        receiver.pull_audio(params, 48_000, &mut outputs, 96, &mut arrivals, false, now);
        let expected: Vec<f32> = ramp(96 * callback, 96)
            .into_iter()
            .map(|sample| sample.min(8_388_607.0 / 8_388_608.0))
            .collect();
        assert_eq!(heard(&outputs, 0), expected);
        assert_eq!(heard(&outputs, 1), vec![-0.5; 96]);
    }
    let status = receiver.status_snapshot();
    assert_eq!(status.packets_received, 41);
    assert_eq!(status.packets_lost, 0);
    assert_eq!(status.underruns, 0);
    assert_eq!(status.queued_samples, 96);
}

#[test]
fn buffers_may_be_short_where_there_is_no_stream() {
    let mut receiver = NetworkReceiver::new();
    let off = StreamParameters {
        enabled: false,
        ..stereo(StreamMode::Receive, [0, 0, 0, 0])
    };
    let mut outputs = block(vec![vec![1.0; 3], vec![]]);
    let mut arrivals = VecDeque::new();
    receiver.pull_audio(off, 48_000, &mut outputs, 64, &mut arrivals, false, 0);
    assert_eq!(heard(&outputs, 0), vec![0.0; 3]);
    let running = stereo(StreamMode::Receive, [0, 0, 0, 0]);
    let mut outputs = block(vec![vec![1.0; 3]]);
    receiver.pull_audio(running, 22_050, &mut outputs, 64, &mut arrivals, false, 0);
    assert_eq!(heard(&outputs, 0), vec![0.0; 3]);
    let mut sender = NetworkSender::new(1);
    let nowhere = stereo(StreamMode::Send, [0, 0, 0, 0]);
    sender.push_audio(nowhere, 48_000, &block(vec![vec![0.5; 3]]), 64, 1);
    assert!(sender.take_packet().is_none());
}

#[test]
fn datagrams_wait_in_order_or_are_counted() {
    let stream = ActiveStream {
        params: stereo(StreamMode::Receive, [10, 0, 0, 5]),
        level: StreamLevel::A48k,
    };
    let home = Endpoint {
        ip: [10, 0, 0, 5],
        port: 9,
    };
    let away = Endpoint {
        ip: [10, 0, 0, 6],
        port: 9,
    };
    let mut datagram = packet_head(0x80);
    for _ in 0..96 {
        write_l24_sample_vec(&mut datagram, bits(0.25));
    }
    let mut receiver = NetworkReceiver::new();
    let mut arrivals: VecDeque<ReceiverPacket> = VecDeque::new();
    for sequence in 0..RECEIVE_QUEUE_PACKETS as u16 + 3 {
        datagram[2..4].copy_from_slice(&sequence.to_be_bytes());
        receiver.take_in(receive_datagram(stream, home, &datagram), &mut arrivals);
        receiver.take_in(receive_datagram(stream, away, &datagram), &mut arrivals);
    }
    assert_eq!(arrivals.len(), RECEIVE_QUEUE_PACKETS);
    for (index, packet) in arrivals.iter().enumerate() {
        assert_eq!(packet.sequence, index as u16);
    }
    receiver.take_in(receive_datagram(stream, home, &datagram[..4]), &mut arrivals);
    receiver.take_in(receive_datagram(stream, home, &datagram[..18]), &mut arrivals);
    arrivals.pop_front();
    datagram[2..4].copy_from_slice(&[0x12, 0x34]);
    receiver.take_in(receive_datagram(stream, home, &datagram), &mut arrivals);
    assert_eq!(arrivals.back().map(|packet| packet.sequence), Some(0x1234));
    assert_eq!(
        receiver.status_snapshot(),
        ReceiverStatus {
            packets_dropped: 3,
            packets_invalid: 2,
            packets_invalid_header: 1,
            packets_invalid_frame_mismatch: 1,
            last_invalid_samples: 2,
            ..ReceiverStatus::default()
        }
    );
}

#[test]
fn packets_leave_in_order_and_are_counted_once() {
    let params = stereo(StreamMode::Send, [127, 0, 0, 1]);
    let inputs = block(vec![vec![0.5; 48], vec![0.5; 48]]);
    let mut sender = NetworkSender::new(1);
    let mut pacer = SenderPacer::new(StreamLevel::A48k);
    let mut now = 1_000 * MILLISECOND;
    sender.push_audio(params, 48_000, &inputs, 48, 1);
    pacer.take_waiting(&mut sender);
    assert!(sender.take_packet().is_none());
    assert_eq!(pacer.decide(now), PacerStep::Fill(WORKER_POLL_INTERVAL));
    for _ in 0..MAX_SENDER_BACKLOG_PACKETS {
        sender.push_audio(params, 48_000, &inputs, 48, 1);
    }
    pacer.take_waiting(&mut sender);
    assert_eq!(sender.status_snapshot().packets_dropped, 1);
    for sequence in 1..=4_u8 {
        assert_eq!(pacer.decide(now), PacerStep::Send);
        let front = pacer.front().unwrap().as_bytes();
        assert_eq!(front.len(), 12 + 96 * 3);
        assert_eq!(front[3], sequence);
        pacer.finish_send(&mut sender, now, sequence != 2);
        assert_eq!(pacer.decide(now), PacerStep::Wait(MILLISECOND));
        now += MILLISECOND;
    }
    let mut drained = 0;
    while let Some(packet) = pacer.front() {
        assert_eq!(packet.as_bytes().len(), 12 + 96 * 3);
        pacer.finish_drain(&mut sender, true);
        drained += 1;
    }
    assert_eq!(drained, MAX_SENDER_BACKLOG_PACKETS - 4);
    let status = sender.status_snapshot();
    assert_eq!(status.packets_sent, 3 + drained as u64);
    assert_eq!(status.packets_dropped, 2);
    assert_eq!(pacer.decide(now), PacerStep::Again);
    assert_eq!(pacer.decide(now), PacerStep::Fill(WORKER_POLL_INTERVAL));
}
