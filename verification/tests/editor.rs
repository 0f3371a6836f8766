use somenet::editor::{
    form_edits, handle_click, hit_test, host_edits, parse_field, step_u16, step_u8, ClickAction, Control,
    EditorForm, EditorLoop, EditorRequest, Rect, VIEW_HEIGHT, VIEW_WIDTH,
};
use somenet::params::{
    stream_parameter_edits, with_apply_token, PARAM_APPLY_SEQ, PARAM_CHANNELS, PARAM_ENABLED, PARAM_IP_1, PARAM_IP_2, PARAM_IP_3, PARAM_IP_4, PARAM_MODE,
    PARAM_PORT, PARAM_TRANSPORT,
};
use somenet::scene::{
    draw_editor, endpoint_hint_text, endpoint_label_text, theme, DrawOp, Rgb, Surface,
};
use somenet::stream::{ClockReference, StreamMode, StreamParameters, StreamTransport};

fn stream() -> StreamParameters {
    StreamParameters {
        enabled: false,
        mode: StreamMode::Send,
        transport: StreamTransport::Unicast,
        channels: 2,
        port: 5004,
        ip: [127, 0, 0, 1],
        clock_reference: ClockReference::Local,
        ptp_domain: 0,
    }
}

fn rgb(r: f64, g: f64, b: f64) -> Rgb {
    Rgb {
        r: (r * 255.0).round() as u8,
        g: (g * 255.0).round() as u8,
        b: (b * 255.0).round() as u8,
    }
}

#[test]
fn boxes_hold_their_near_edges_only() {
    let rect = Rect {
        x: 10,
        y: 20,
        w: 5,
        h: 6,
    };
    assert!(rect.contains(10, 20));
    assert!(rect.contains(14, 25));
    assert!(!rect.contains(15, 20));
    assert!(!rect.contains(10, 26));
    assert!(!rect.contains(9, 20));
}

#[test]
fn controls_are_where_they_are_drawn() {
    for (control, x, y, w, h) in [
        (Control::Arm, 364, 36, 112, 30),
        (Control::ModeSend, 76, 112, 70, 28),
        (Control::ModeReceive, 146, 112, 70, 28),
        (Control::TransportUnicast, 318, 112, 79, 28),
        (Control::TransportMulticast, 397, 112, 79, 28),
        (Control::ClockLocal, 76, 158, 70, 28),
        (Control::ClockPtp, 146, 158, 70, 28),
        (Control::ChannelsMinus, 110, 208, 24, 24),
        (Control::ChannelsValue, 136, 208, 44, 24),
        (Control::ChannelsPlus, 182, 208, 24, 24),
        (Control::PortMinus, 258, 208, 24, 24),
        (Control::PortValue, 284, 208, 58, 24),
        (Control::PortPlus, 344, 208, 24, 24),
        (Control::PtpMinus, 334, 158, 24, 24),
        (Control::PtpValue, 360, 158, 44, 24),
        (Control::PtpPlus, 406, 158, 24, 24),
        (Control::IpMinus(0), 24, 276, 22, 28),
        (Control::IpMinus(3), 258, 276, 22, 28),
        (Control::IpValue(1), 126, 276, 22, 28),
        (Control::IpPlus(2), 228, 276, 22, 28),
        (Control::Apply, 386, 274, 90, 32),
        (Control::RuntimePanel, 24, 374, 452, 100),
    ] {
        assert_eq!(control.rect(), Rect { x, y, w, h });
    }
    assert_eq!((VIEW_WIDTH, VIEW_HEIGHT), (500, 492));
}

#[test]
fn clicks_are_meant_for_what_they_hit() {
    assert_eq!(hit_test(364, 36), Some(ClickAction::ToggleArm));
    assert_eq!(hit_test(146, 112), Some(ClickAction::SetMode(StreamMode::Receive)));
    assert_eq!(hit_test(145, 112), Some(ClickAction::SetMode(StreamMode::Send)));
    assert_eq!(
        hit_test(400, 120),
        Some(ClickAction::SetTransport(StreamTransport::Multicast))
    );
    assert_eq!(
        hit_test(150, 160),
        Some(ClickAction::SetClockReference(ClockReference::Ptp))
    );
    assert_eq!(hit_test(111, 209), Some(ClickAction::AdjustChannels(-1)));
    assert_eq!(hit_test(345, 209), Some(ClickAction::AdjustPort(10)));
    assert_eq!(hit_test(407, 159), Some(ClickAction::AdjustPtpDomain(1)));
    assert_eq!(hit_test(181, 277), Some(ClickAction::AdjustIp(2, -1)));
    assert_eq!(hit_test(307, 277), Some(ClickAction::AdjustIp(3, 1)));
    assert_eq!(hit_test(390, 300), Some(ClickAction::Apply));
    assert_eq!(hit_test(140, 210), None);
    assert_eq!(hit_test(0, 0), None);
}

#[test]
fn steps_stay_in_range() {
    assert_eq!(step_u8(1, -1, 1, 64), 1);
    assert_eq!(step_u8(64, 1, 1, 64), 64);
    assert_eq!(step_u8(63, 1, 1, 64), 64);
    assert_eq!(step_u8(96, 0, 1, 64), 64);
    assert_eq!(step_u16(5, -10, 1, 65_535), 1);
    assert_eq!(step_u16(65_530, 10, 1, 65_535), 65_535);
    assert_eq!(step_u16(5004, 10, 1, 65_535), 5014);
}

#[test]
fn clicks_edit_the_stream() {
    let mut params = stream();
    assert_eq!(handle_click(&mut params, 0, 0), EditorRequest::Nothing);
    assert_eq!(params, stream());
    assert_eq!(handle_click(&mut params, 190, 210), EditorRequest::Redraw);
    assert_eq!(params.channels, 3);
    assert_eq!(handle_click(&mut params, 260, 210), EditorRequest::Redraw);
    assert_eq!(params.port, 4994);
    handle_click(&mut params, 150, 160);
    handle_click(&mut params, 410, 160);
    assert_eq!(params.clock_reference, ClockReference::Ptp);
    assert_eq!(params.ptp_domain, 1);
    handle_click(&mut params, 80, 160);
    assert_eq!(params.clock_reference, ClockReference::Local);
    assert_eq!(params.ptp_domain, 0);
    handle_click(&mut params, 75, 280);
    assert_eq!(params.ip, [128, 0, 0, 1]);
    handle_click(&mut params, 104, 280);
    assert_eq!(params.ip, [128, 0, 0, 1]);
    assert_eq!(
        handle_click(&mut params, 370, 40),
        EditorRequest::SetEnabled(true)
    );
    assert!(params.enabled);
    assert_eq!(handle_click(&mut params, 390, 280), EditorRequest::ApplyStream);
}

#[test]
fn fields_hold_numbers_or_change_nothing() {
    assert_eq!(parse_field(" 12 ", 2, 1, 96), 12);
    assert_eq!(parse_field("400", 2, 1, 96), 96);
    assert_eq!(parse_field("0", 2, 1, 96), 1);
    assert_eq!(parse_field("many", 2, 1, 96), 2);
    assert_eq!(parse_field("many", 200, 1, 96), 96);
}

#[test]
fn forms_are_handed_on_as_edits() {
    let form = EditorForm {
        enabled: true,
        receive: true,
        multicast: false,
        channels: "x".to_string(),
        port: "70000".to_string(),
        ip: [
            "10".to_string(),
            "".to_string(),
            "+7".to_string(),
            "300".to_string(),
        ],
    };
    assert_eq!(
        form_edits(&form, stream()),
        vec![
            (PARAM_ENABLED, 1),
            (PARAM_MODE, 1),
            (PARAM_TRANSPORT, 0),
            (PARAM_CHANNELS, 2),
            (PARAM_PORT, 65_535),
            (PARAM_IP_1, 10),
            (PARAM_IP_2, 0),
            (PARAM_IP_3, 7),
            (PARAM_IP_4, 255),
        ]
    );
}

#[test]
fn a_window_draws_when_it_has_to() {
    let mut window = EditorLoop::new(1_000);
    let step = window.tick(1_100);
    assert!(step.draw && !step.refresh_status);
    let step = window.tick(1_499);
    assert!(!step.draw && !step.refresh_status);
    let step = window.tick(1_500);
    assert!(step.draw && step.refresh_status);
    window.on_click(EditorRequest::Nothing);
    assert!(!window.tick(1_600).draw);
    window.on_click(EditorRequest::Redraw);
    assert!(window.tick(1_600).draw);
    window.on_expose();
    assert!(window.tick(1_600).draw);
    assert!(window.running);
    window.on_destroy();
    assert!(!window.running);
}

#[test]
fn themes_have_their_colours() {
    let send = theme(StreamMode::Send);
    assert_eq!(send.background, rgb(0.93, 0.91, 0.86));
    assert_eq!(send.panel_fill, rgb(0.98, 0.97, 0.94));
    assert_eq!(send.field_fill, rgb(0.98, 0.97, 0.94));
    assert_eq!(send.rule, rgb(0.76, 0.73, 0.67));
    assert_eq!(send.text, rgb(0.12, 0.12, 0.11));
    assert_eq!(send.secondary_text, rgb(0.38, 0.39, 0.36));
    assert_eq!(send.accent, rgb(0.46, 0.31, 0.18));
    assert_eq!(send.selected_fill, rgb(0.89, 0.84, 0.75));
    let receive = theme(StreamMode::Receive);
    assert_eq!(receive.background, rgb(0.90, 0.92, 0.90));
    assert_eq!(receive.panel_fill, rgb(0.95, 0.97, 0.95));
    assert_eq!(receive.field_fill, rgb(0.97, 0.98, 0.97));
    assert_eq!(receive.rule, rgb(0.63, 0.69, 0.65));
    assert_eq!(receive.text, rgb(0.12, 0.12, 0.11));
    assert_eq!(receive.secondary_text, rgb(0.35, 0.40, 0.37));
    assert_eq!(receive.accent, rgb(0.19, 0.34, 0.27));
    assert_eq!(receive.selected_fill, rgb(0.83, 0.89, 0.85));
}

#[test]
fn colours_are_packed_both_ways() {
    let color = Rgb {
        r: 0x12,
        g: 0x34,
        b: 0x56,
    };
    assert_eq!(color.red_first(), 0x12_3456);
    assert_eq!(color.blue_first(), 0x56_3412);
}

#[test]
fn endpoints_are_explained() {
    let group = StreamParameters {
        mode: StreamMode::Receive,
        transport: StreamTransport::Multicast,
        ..stream()
    };
    assert_eq!(endpoint_label_text(stream()), "Destination IP");
    assert_eq!(endpoint_label_text(group), "Group IP");
    assert_eq!(endpoint_hint_text(stream()), "Send directly to one host");
    assert_eq!(
        endpoint_hint_text(group),
        "Join this multicast group on the local interface"
    );
    let source = StreamParameters {
        mode: StreamMode::Receive,
        ..stream()
    };
    assert_eq!(endpoint_label_text(source), "Expected Source");
    assert_eq!(
        endpoint_hint_text(source),
        "0.0.0.0 accepts any sender on this port"
    );
}

fn texts(ops: &[DrawOp]) -> Vec<(String, i32, i32, Rgb)> {
    let mut found = Vec::new();
    for op in ops {
        if let DrawOp::Text {
            text, at, color, ..
        } = op
        {
            found.push((text.clone(), at.x, at.y, *color));
        }
    }
    found
}

#[test]
fn an_x11_editor_is_drawn() {
    let status = [
        "first".to_string(),
        "second".to_string(),
        "third".to_string(),
        "fourth".to_string(),
    ];
    let ops = draw_editor(Surface::X11, stream(), &status);
    let colours = theme(StreamMode::Send);
    assert!(matches!(
        ops[0],
        DrawOp::Fill { rect: Rect { x: 0, y: 0, w: 500, h: 492 }, color } if color == colours.background
    ));
    let found = texts(&ops);
    let mut expected = vec![
        ("SomeNET".to_string(), 24, 42, colours.text),
        ("SEND".to_string(), 152, 44, colours.accent),
        ("ARM".to_string(), 372, 56, colours.text),
        ("Mode".to_string(), 24, 132, colours.text),
        ("Send".to_string(), 84, 131, colours.accent),
        ("Receive".to_string(), 154, 131, colours.text),
        ("Transport".to_string(), 236, 132, colours.text),
        ("Unicast".to_string(), 326, 131, colours.accent),
        ("Multicast".to_string(), 405, 131, colours.text),
        ("Clock".to_string(), 24, 178, colours.text),
        ("Local".to_string(), 84, 177, colours.accent),
        ("PTP".to_string(), 154, 177, colours.text),
        ("PTP Domain".to_string(), 236, 178, colours.text),
        ("-".to_string(), 342, 175, colours.secondary_text),
        ("0".to_string(), 368, 175, colours.secondary_text),
        ("+".to_string(), 414, 175, colours.secondary_text),
        ("Channels".to_string(), 24, 228, colours.text),
        ("-".to_string(), 118, 225, colours.text),
        ("2".to_string(), 144, 225, colours.text),
        ("+".to_string(), 190, 225, colours.text),
        ("Port".to_string(), 214, 228, colours.text),
        ("-".to_string(), 266, 225, colours.text),
        ("5004".to_string(), 292, 225, colours.text),
        ("+".to_string(), 352, 225, colours.text),
        ("Destination IP".to_string(), 24, 274, colours.text),
        (
            "Send directly to one host".to_string(),
            150,
            274,
            colours.secondary_text,
        ),
    ];
    for (index, octet) in ["127", "0", "0", "1"].into_iter().enumerate() {
        let x = 78 * index as i32;
        expected.push(("-".to_string(), 32 + x, 295, colours.text));
        expected.push((octet.to_string(), 56 + x, 295, colours.text));
        expected.push(("+".to_string(), 80 + x, 295, colours.text));
    }
    expected.push(("Apply".to_string(), 394, 295, colours.text));
    expected.push(("Runtime".to_string(), 24, 364, colours.text));
    for (index, line) in status.iter().enumerate() {
        expected.push((line.clone(), 40, 408 + 20 * index as i32, colours.text));
    }
    assert_eq!(found, expected);
}

#[test]
fn a_win32_editor_is_drawn() {
    let status = [String::new(), String::new(), String::new(), "last".to_string()];
    let armed = StreamParameters {
        enabled: true,
        mode: StreamMode::Receive,
        ..stream()
    };
    let ops = draw_editor(Surface::Win32, armed, &status);
    let colours = theme(StreamMode::Receive);
    let found = texts(&ops);
    assert_eq!(found[0], ("SOMETHINGNET".to_string(), 24, 34, colours.text));
    assert_eq!(found[1], ("RECEIVE".to_string(), 152, 38, colours.accent));
    assert_eq!(found[2], ("ARM".to_string(), 364, 37, colours.accent));
    assert_eq!(found[3], ("Mode".to_string(), 24, 118, colours.text));
    assert_eq!(
        found[found.len() - 1],
        ("last".to_string(), 40, 454, colours.text)
    );
    assert!(ops.iter().any(|op| matches!(
        op,
        DrawOp::Fill { rect, color } if *rect == Control::Arm.rect() && *color == colours.selected_fill
    )));
    assert!(ops.iter().any(|op| matches!(
        op,
        DrawOp::Frame { rect, color } if *rect == Control::RuntimePanel.rect() && *color == colours.rule
    )));
}

#[test]
fn applying_hands_all_on_and_then_starts_afresh() {
    let edits = host_edits(EditorRequest::ApplyStream, stream(), 41);
    assert_eq!(edits[..10], stream_parameter_edits(stream())[..]);
    assert_eq!(edits[10..], [(PARAM_APPLY_SEQ, 42)]);
    let round = host_edits(EditorRequest::ApplyStream, stream(), 65_535);
    assert_eq!(round.last(), Some(&(PARAM_APPLY_SEQ, 0)));
    assert_eq!(
        host_edits(EditorRequest::SetEnabled(true), stream(), 41),
        vec![(PARAM_ENABLED, 1)]
    );
    assert!(host_edits(EditorRequest::Redraw, stream(), 41).is_empty());
    assert!(host_edits(EditorRequest::Nothing, stream(), 41).is_empty());
    assert_eq!(
        with_apply_token(vec![(PARAM_PORT, 5)], 7),
        vec![(PARAM_PORT, 5), (PARAM_APPLY_SEQ, 8)]
    );
}
