//! The plugin's editor: where its controls are, what a click does, and what is drawn.

use crate::lines::trim;
use crate::params::{
    stream_parameter_edits, with_apply_token, PARAM_CHANNELS, PARAM_ENABLED, PARAM_IP_1,
    PARAM_IP_2, PARAM_IP_3, PARAM_IP_4, PARAM_MODE, PARAM_PORT, PARAM_TRANSPORT,
};
use crate::stream::{
    ClockReference, StreamMode, StreamParameters, StreamTransport, MAX_CHANNELS,
};
use crate::text::{chars_of, parse_number};
use vstd::prelude::*;

verus! {

/// The size of the editor.
pub const VIEW_WIDTH: i32 = 500;

pub const VIEW_HEIGHT: i32 = 492;

/// How often the editor looks at the runtime status, in milliseconds.
pub const EDITOR_STATUS_INTERVAL_MS: u64 = 500;

/// A rectangle.
#[derive(Clone, Copy, Debug, PartialEq, Eq, Structural)]
pub struct Rect {
    pub x: i32,
    pub y: i32,
    pub w: i32,
    pub h: i32,
}

impl Rect {
    /// Whether a point lies in the rectangle.
    pub open spec fn holds(self, px: i32, py: i32) -> bool {
        self.x <= px < self.x + self.w && self.y <= py < self.y + self.h
    }

    /// Whether a point lies in the rectangle.
    pub fn contains(self, px: i32, py: i32) -> (inside: bool)
        requires
            i32::MIN <= self.x + self.w <= i32::MAX,
            i32::MIN <= self.y + self.h <= i32::MAX,
        ensures
            inside == self.holds(px, py),
    {
        px >= self.x && py >= self.y && px < self.x + self.w && py < self.y + self.h
    }
}

/// What the editor has.
#[derive(Clone, Copy, Debug, PartialEq, Eq, Structural)]
pub enum Control {
    Arm,
    ModeSend,
    ModeReceive,
    TransportUnicast,
    TransportMulticast,
    ClockLocal,
    ClockPtp,
    ChannelsMinus,
    ChannelsValue,
    ChannelsPlus,
    PortMinus,
    PortValue,
    PortPlus,
    PtpMinus,
    PtpValue,
    PtpPlus,
    IpMinus(usize),
    IpValue(usize),
    IpPlus(usize),
    Apply,
    RuntimePanel,
}

impl Control {
    /// Whether the control is there: an address has four numbers.
    pub open spec fn wf(self) -> bool {
        match self {
            Control::IpMinus(index) => index < 4,
            Control::IpValue(index) => index < 4,
            Control::IpPlus(index) => index < 4,
            _ => true,
        }
    }

    /// Where the control is.
    pub open spec fn place(self) -> Rect {
        match self {
            Control::Arm => Rect { x: 364, y: 36, w: 112, h: 30 },
            Control::ModeSend => Rect { x: 76, y: 112, w: 70, h: 28 },
            Control::ModeReceive => Rect { x: 146, y: 112, w: 70, h: 28 },
            Control::TransportUnicast => Rect { x: 318, y: 112, w: 79, h: 28 },
            Control::TransportMulticast => Rect { x: 397, y: 112, w: 79, h: 28 },
            Control::ClockLocal => Rect { x: 76, y: 158, w: 70, h: 28 },
            Control::ClockPtp => Rect { x: 146, y: 158, w: 70, h: 28 },
            Control::ChannelsMinus => Rect { x: 110, y: 208, w: 24, h: 24 },
            Control::ChannelsValue => Rect { x: 136, y: 208, w: 44, h: 24 },
            Control::ChannelsPlus => Rect { x: 182, y: 208, w: 24, h: 24 },
            Control::PortMinus => Rect { x: 258, y: 208, w: 24, h: 24 },
            Control::PortValue => Rect { x: 284, y: 208, w: 58, h: 24 },
            Control::PortPlus => Rect { x: 344, y: 208, w: 24, h: 24 },
            Control::PtpMinus => Rect { x: 334, y: 158, w: 24, h: 24 },
            Control::PtpValue => Rect { x: 360, y: 158, w: 44, h: 24 },
            Control::PtpPlus => Rect { x: 406, y: 158, w: 24, h: 24 },
            Control::IpMinus(index) => Rect { x: (24 + 78 * index) as i32, y: 276, w: 22, h: 28 },
            Control::IpValue(index) => Rect { x: (48 + 78 * index) as i32, y: 276, w: 22, h: 28 },
            Control::IpPlus(index) => Rect { x: (72 + 78 * index) as i32, y: 276, w: 22, h: 28 },
            Control::Apply => Rect { x: 386, y: 274, w: 90, h: 32 },
            Control::RuntimePanel => Rect { x: 24, y: 374, w: 452, h: 100 },
        }
    }

    /// Where the control is.
    pub fn rect(self) -> (rect: Rect)
        requires
            self.wf(),
        ensures
            rect == self.place(),
            0 <= rect.x && rect.x + rect.w <= VIEW_WIDTH,
            0 <= rect.y && rect.y + rect.h <= VIEW_HEIGHT,
            rect.w > 0 && rect.h > 0,
    {
        match self {
            Control::Arm => Rect { x: 364, y: 36, w: 112, h: 30 },
            Control::ModeSend => Rect { x: 76, y: 112, w: 70, h: 28 },
            Control::ModeReceive => Rect { x: 146, y: 112, w: 70, h: 28 },
            Control::TransportUnicast => Rect { x: 318, y: 112, w: 79, h: 28 },
            Control::TransportMulticast => Rect { x: 397, y: 112, w: 79, h: 28 },
            Control::ClockLocal => Rect { x: 76, y: 158, w: 70, h: 28 },
            Control::ClockPtp => Rect { x: 146, y: 158, w: 70, h: 28 },
            Control::ChannelsMinus => Rect { x: 110, y: 208, w: 24, h: 24 },
            Control::ChannelsValue => Rect { x: 136, y: 208, w: 44, h: 24 },
            Control::ChannelsPlus => Rect { x: 182, y: 208, w: 24, h: 24 },
            Control::PortMinus => Rect { x: 258, y: 208, w: 24, h: 24 },
            Control::PortValue => Rect { x: 284, y: 208, w: 58, h: 24 },
            Control::PortPlus => Rect { x: 344, y: 208, w: 24, h: 24 },
            Control::PtpMinus => Rect { x: 334, y: 158, w: 24, h: 24 },
            Control::PtpValue => Rect { x: 360, y: 158, w: 44, h: 24 },
            Control::PtpPlus => Rect { x: 406, y: 158, w: 24, h: 24 },
            Control::IpMinus(index) => Rect { x: 24 + 78 * index as i32, y: 276, w: 22, h: 28 },
            Control::IpValue(index) => Rect { x: 48 + 78 * index as i32, y: 276, w: 22, h: 28 },
            Control::IpPlus(index) => Rect { x: 72 + 78 * index as i32, y: 276, w: 22, h: 28 },
            Control::Apply => Rect { x: 386, y: 274, w: 90, h: 32 },
            Control::RuntimePanel => Rect { x: 24, y: 374, w: 452, h: 100 },
        }
    }

    /// What a click on the control does, where it does anything.
    pub open spec fn action(self) -> Option<ClickAction> {
        match self {
            Control::Arm => Some(ClickAction::ToggleArm),
            Control::ModeSend => Some(ClickAction::SetMode(StreamMode::Send)),
            Control::ModeReceive => Some(ClickAction::SetMode(StreamMode::Receive)),
            Control::TransportUnicast => Some(ClickAction::SetTransport(StreamTransport::Unicast)),
            Control::TransportMulticast => Some(
                ClickAction::SetTransport(StreamTransport::Multicast),
            ),
            Control::ClockLocal => Some(ClickAction::SetClockReference(ClockReference::Local)),
            Control::ClockPtp => Some(ClickAction::SetClockReference(ClockReference::Ptp)),
            Control::ChannelsMinus => Some(ClickAction::AdjustChannels(-1i32)),
            Control::ChannelsPlus => Some(ClickAction::AdjustChannels(1)),
            Control::PortMinus => Some(ClickAction::AdjustPort(-10i32)),
            Control::PortPlus => Some(ClickAction::AdjustPort(10)),
            Control::PtpMinus => Some(ClickAction::AdjustPtpDomain(-1i32)),
            Control::PtpPlus => Some(ClickAction::AdjustPtpDomain(1)),
            Control::IpMinus(index) => Some(ClickAction::AdjustIp(index, -1i32)),
            Control::IpPlus(index) => Some(ClickAction::AdjustIp(index, 1)),
            Control::Apply => Some(ClickAction::Apply),
            _ => None,
        }
    }
}

/// What a click does.
#[derive(Clone, Copy, Debug, PartialEq, Eq, Structural)]
pub enum ClickAction {
    ToggleArm,
    SetMode(StreamMode),
    SetTransport(StreamTransport),
    SetClockReference(ClockReference),
    AdjustChannels(i32),
    AdjustPort(i32),
    AdjustPtpDomain(i32),
    AdjustIp(usize, i32),
    Apply,
}

/// Controls do not overlap.
pub proof fn law_controls_are_apart(a: Control, b: Control, x: i32, y: i32)
    requires
        a.wf(),
        b.wf(),
        a.place().holds(x, y),
        b.place().holds(x, y),
    ensures
        a == b,
{
}

/// Whether a click at a point is on a control that does something.
pub open spec fn is_hit(control: Control, x: i32, y: i32) -> bool {
    control.wf() && control.action() is Some && control.place().holds(x, y)
}

/// Looks whether a point is on a control.
fn hits(control: Control, x: i32, y: i32) -> (hit: bool)
    requires
        control.wf(),
        control.action() is Some,
    ensures
        hit == is_hit(control, x, y),
{
    control.rect().contains(x, y)
}

/// What a click at a point does.
pub fn hit_test(x: i32, y: i32) -> (action: Option<ClickAction>)
    ensures
        action matches Some(a) ==> exists|control: Control|
            #[trigger] is_hit(control, x, y) && control.action() == Some(a),
        action is None ==> forall|control: Control| !#[trigger] is_hit(control, x, y),
        forall|control: Control| #[trigger] is_hit(control, x, y) ==> action == control.action(),
{
    proof {
        assert forall|a: Control, b: Control| #[trigger] is_hit(a, x, y) && #[trigger] is_hit(
            b,
            x,
            y,
        ) implies a == b by {
            law_controls_are_apart(a, b, x, y);
        }
    }
    if hits(Control::Arm, x, y) {
        return Some(ClickAction::ToggleArm);
    }
    if hits(Control::ModeSend, x, y) {
        return Some(ClickAction::SetMode(StreamMode::Send));
    }
    if hits(Control::ModeReceive, x, y) {
        return Some(ClickAction::SetMode(StreamMode::Receive));
    }
    if hits(Control::TransportUnicast, x, y) {
        return Some(ClickAction::SetTransport(StreamTransport::Unicast));
    }
    if hits(Control::TransportMulticast, x, y) {
        return Some(ClickAction::SetTransport(StreamTransport::Multicast));
    }
    if hits(Control::ClockLocal, x, y) {
        return Some(ClickAction::SetClockReference(ClockReference::Local));
    }
    if hits(Control::ClockPtp, x, y) {
        return Some(ClickAction::SetClockReference(ClockReference::Ptp));
    }
    if hits(Control::ChannelsMinus, x, y) {
        return Some(ClickAction::AdjustChannels(-1));
    }
    if hits(Control::ChannelsPlus, x, y) {
        return Some(ClickAction::AdjustChannels(1));
    }
    if hits(Control::PortMinus, x, y) {
        return Some(ClickAction::AdjustPort(-10));
    }
    if hits(Control::PortPlus, x, y) {
        return Some(ClickAction::AdjustPort(10));
    }
    if hits(Control::PtpMinus, x, y) {
        return Some(ClickAction::AdjustPtpDomain(-1));
    }
    if hits(Control::PtpPlus, x, y) {
        return Some(ClickAction::AdjustPtpDomain(1));
    }
    let mut index: usize = 0;
    while index < 4
        invariant
            index <= 4,
            forall|a: Control, b: Control| #[trigger]
                is_hit(a, x, y) && #[trigger] is_hit(b, x, y) ==> a == b,
            forall|i: usize| i < index ==> !#[trigger] is_hit(Control::IpMinus(i), x, y),
            forall|i: usize| i < index ==> !#[trigger] is_hit(Control::IpPlus(i), x, y),
        decreases 4 - index,
    {
        if hits(Control::IpMinus(index), x, y) {
            return Some(ClickAction::AdjustIp(index, -1));
        }
        if hits(Control::IpPlus(index), x, y) {
            return Some(ClickAction::AdjustIp(index, 1));
        }
        index = index + 1;
    }
    if hits(Control::Apply, x, y) {
        return Some(ClickAction::Apply);
    }
    None
}

/// A value moved by some steps and kept in a range.
pub open spec fn stepped(current: int, delta: int, min: int, max: int) -> int {
    if current + delta < min {
        min
    } else if current + delta > max {
        max
    } else {
        current + delta
    }
}

pub fn step_u8(current: u8, delta: i32, min: u8, max: u8) -> (next: u8)
    requires
        min <= max,
        i32::MIN <= current + delta <= i32::MAX,
    ensures
        next == stepped(current as int, delta as int, min as int, max as int),
{
    let moved: i32 = current as i32 + delta;
    if moved < min as i32 {
        min
    } else if moved > max as i32 {
        max
    } else {
        moved as u8
    }
}

pub fn step_u16(current: u16, delta: i32, min: u16, max: u16) -> (next: u16)
    requires
        min <= max,
        i32::MIN <= current + delta <= i32::MAX,
    ensures
        next == stepped(current as int, delta as int, min as int, max as int),
{
    let moved: i32 = current as i32 + delta;
    if moved < min as i32 {
        min
    } else if moved > max as i32 {
        max
    } else {
        moved as u16
    }
}

/// The stream as it is edited, after a click.
pub open spec fn clicked(params: StreamParameters, action: ClickAction) -> StreamParameters {
    match action {
        ClickAction::ToggleArm => StreamParameters { enabled: !params.enabled, ..params },
        ClickAction::SetMode(mode) => StreamParameters { mode, ..params },
        ClickAction::SetTransport(transport) => StreamParameters { transport, ..params },
        ClickAction::SetClockReference(clock_reference) => StreamParameters {
            clock_reference,
            ptp_domain: if clock_reference is Local {
                0
            } else {
                params.ptp_domain
            },
            ..params
        },
        ClickAction::AdjustChannels(delta) => StreamParameters {
            channels: stepped(
                params.channels as int,
                delta as int,
                1,
                crate::arrangement::VST3_MAX_CHANNELS as int,
            ) as u8,
            ..params
        },
        ClickAction::AdjustPort(delta) => StreamParameters {
            port: stepped(params.port as int, delta as int, 1, u16::MAX as int) as u16,
            ..params
        },
        ClickAction::AdjustPtpDomain(delta) => StreamParameters {
            ptp_domain: stepped(params.ptp_domain as int, delta as int, 0, 127) as u8,
            ..params
        },
        ClickAction::AdjustIp(index, delta) => StreamParameters {
            ip: with_octet(
                params.ip,
                index as int,
                stepped(params.ip@[index as int] as int, delta as int, 0, 255) as u8,
            ),
            ..params
        },
        ClickAction::Apply => params,
    }
}

/// An address with one number changed.
pub open spec fn with_octet(ip: [u8; 4], index: int, octet: u8) -> [u8; 4] {
    [
        if index == 0 {
            octet
        } else {
            ip@[0]
        },
        if index == 1 {
            octet
        } else {
            ip@[1]
        },
        if index == 2 {
            octet
        } else {
            ip@[2]
        },
        if index == 3 {
            octet
        } else {
            ip@[3]
        },
    ]
}

/// What a click asks of the host.
#[derive(Clone, Copy, Debug, PartialEq, Eq, Structural)]
pub enum EditorRequest {
    /// Nothing was hit.
    Nothing,
    /// The editor is to be drawn again.
    Redraw,
    /// The stream is to be enabled or disabled at once.
    SetEnabled(bool),
    /// The edited stream is to be handed to the host and started afresh.
    ApplyStream,
}

/// What a click asks of the host that left the stream as it is now.
pub open spec fn request_of(params: StreamParameters, action: ClickAction) -> EditorRequest {
    match action {
        ClickAction::ToggleArm => EditorRequest::SetEnabled(params.enabled),
        ClickAction::Apply => EditorRequest::ApplyStream,
        _ => EditorRequest::Redraw,
    }
}

/// Handles a click on the edited stream. Arming acts at once, applying hands the stream on, and
/// everything else only edits it.
pub fn handle_click(params: &mut StreamParameters, x: i32, y: i32) -> (request: EditorRequest)
    ensures
        (forall|control: Control| !#[trigger] is_hit(control, x, y)) ==> request
            == EditorRequest::Nothing && *final(params) == *old(params),
        forall|control: Control| #[trigger]
            is_hit(control, x, y) ==> {
                &&& *final(params) == clicked(*old(params), control.action()->0)
                &&& request == request_of(*final(params), control.action()->0)
            },
{
    let action: ClickAction = match hit_test(x, y) {
        None => {
            return EditorRequest::Nothing;
        },
        Some(action) => action,
    };
    let ghost control = choose|control: Control|
        #[trigger] is_hit(control, x, y) && control.action() == Some(action);
    assert(is_hit(control, x, y));
    match action {
        ClickAction::ToggleArm => {
            params.enabled = !params.enabled;
            EditorRequest::SetEnabled(params.enabled)
        },
        ClickAction::SetMode(mode) => {
            params.mode = mode;
            EditorRequest::Redraw
        },
        ClickAction::SetTransport(transport) => {
            params.transport = transport;
            EditorRequest::Redraw
        },
        ClickAction::SetClockReference(clock_reference) => {
            params.clock_reference = clock_reference;
            if clock_reference == ClockReference::Local {
                params.ptp_domain = 0;
            }
            EditorRequest::Redraw
        },
        ClickAction::AdjustChannels(delta) => {
            params.channels = step_u8(params.channels, delta, 1, 64);
            EditorRequest::Redraw
        },
        ClickAction::AdjustPort(delta) => {
            params.port = step_u16(params.port, delta, 1, u16::MAX);
            EditorRequest::Redraw
        },
        ClickAction::AdjustPtpDomain(delta) => {
            params.ptp_domain = step_u8(params.ptp_domain, delta, 0, 127);
            EditorRequest::Redraw
        },
        ClickAction::AdjustIp(index, delta) => {
            let ghost before = *params;
            params.ip[index] = step_u8(params.ip[index], delta, 0, 255);
            proof {
                assert(params.ip@ =~= clicked(before, action).ip@);
                assert(params.ip =~= clicked(before, action).ip);
            }
            EditorRequest::Redraw
        },
        ClickAction::Apply => EditorRequest::ApplyStream,
    }
}

/// The edits that do what a click asks of the host. Applying hands all parameters on, and then has
/// the stream start afresh.
pub open spec fn edits_for(request: EditorRequest, params: StreamParameters, token: u32) -> Seq<
    (u32, u32),
> {
    match request {
        EditorRequest::Nothing => Seq::empty(),
        EditorRequest::Redraw => Seq::empty(),
        EditorRequest::SetEnabled(enabled) => seq![(PARAM_ENABLED, one_if(enabled))],
        EditorRequest::ApplyStream => crate::params::stream_edits(params).push(
            (crate::params::PARAM_APPLY_SEQ, crate::params::token_after(token)),
        ),
    }
}

/// The edits that do what a click asks of the host, of the stream as it is edited and the token as
/// it is set.
pub fn host_edits(request: EditorRequest, params: StreamParameters, token: u32) -> (edits: Vec<
    (u32, u32),
>)
    ensures
        edits@ == edits_for(request, params, token),
{
    match request {
        EditorRequest::Nothing => Vec::new(),
        EditorRequest::Redraw => Vec::new(),
        EditorRequest::SetEnabled(enabled) => {
            let value: u32 = if enabled {
                1
            } else {
                0
            };
            let edits: Vec<(u32, u32)> = vec![(PARAM_ENABLED, value)];
            proof {
                assert(edits@ =~= edits_for(request, params, token));
            }
            edits
        },
        EditorRequest::ApplyStream => with_apply_token(stream_parameter_edits(params), token),
    }
}

/// The host is asked for something only by arming and applying. Arming sets just that. Applying sets
/// every parameter of the stream but that to what was edited, and behind them all changes the token,
/// once.
pub proof fn law_applying_resets_once_and_last(
    params: StreamParameters,
    action: ClickAction,
    token: u32,
)
    requires
        crate::params::range_of(crate::params::PARAM_APPLY_SEQ).0 <= token <= crate::params::range_of(
            crate::params::PARAM_APPLY_SEQ,
        ).1,
    ensures
        ({
            let edits = edits_for(request_of(params, action), params, token);
            &&& edits.len() > 0 <==> action is ToggleArm || action is Apply
            &&& action is ToggleArm ==> edits == seq![(PARAM_ENABLED, one_if(params.enabled))]
            &&& action is Apply ==> {
                &&& edits.last().0 == crate::params::PARAM_APPLY_SEQ && edits.last().1 != token
                &&& forall|k: int|
                    0 <= k < edits.len() - 1 ==> (#[trigger] edits[k]).0 != crate::params::PARAM_APPLY_SEQ
                &&& forall|k: int|
                    0 <= k < edits.len() - 1 ==> (#[trigger] edits[k]).1
                        == crate::params::plain_of(params, edits[k].0)
                &&& forall|id: u32|
                    PARAM_ENABLED < id < crate::params::PARAM_APPLY_SEQ ==> edits.contains(
                        (id, #[trigger] crate::params::plain_of(params, id)),
                    )
            }
        }),
{
    let edits = edits_for(request_of(params, action), params, token);
    crate::params::law_apply_tokens_change(token);
    if action is Apply {
        assert forall|id: u32| PARAM_ENABLED < id < crate::params::PARAM_APPLY_SEQ implies edits.contains(
            (id, #[trigger] crate::params::plain_of(params, id)),
        ) by {
            let order = crate::params::edit_order();
            let at: int = if id == 1 {
                0
            } else if id == 2 {
                1
            } else if id == 9 {
                2
            } else if id == 10 {
                3
            } else {
                id + 1
            };
            assert(order[at] == id);
            assert(edits[at] == (id, crate::params::plain_of(params, id)));
        }
    }
}

/// No click leaves the range of what a stream can be set to.
pub proof fn law_clicks_keep_the_stream_in_range(params: StreamParameters, action: ClickAction)
    requires
        crate::state::is_normal(params),
    ensures
        crate::state::is_normal(clicked(params, action)),
{
}

/// A click on the other button takes a step back, where the first was not stopped by the end of
/// the range.
pub proof fn law_steps_undo_each_other(current: int, delta: int, min: int, max: int)
    requires
        min <= current <= max,
        min <= current + delta <= max,
    ensures
        stepped(stepped(current, delta, min, max), -delta, min, max) == current,
{
}

/// The texts of an editor's fields.
pub struct EditorForm {
    pub enabled: bool,
    pub receive: bool,
    pub multicast: bool,
    pub channels: String,
    pub port: String,
    pub ip: [String; 4],
}

/// The number in a field, or the one that is set where the field holds none, kept in a range.
pub open spec fn field_number(text: Seq<char>, current: u32, min: u32, max: u32) -> u32 {
    crate::params::clamped(
        match crate::text::number_of(crate::lines::trimmed(text), u32::MAX as nat) {
            Ok(number) => number as u32,
            Err(_) => current,
        },
        min,
        max,
    )
}

/// Reads the number in a field.
pub fn parse_field(text: &str, current: u32, min: u32, max: u32) -> (number: u32)
    requires
        min <= max,
    ensures
        number == field_number(text@, current, min, max),
{
    let chars: Vec<char> = chars_of(text);
    let core: Vec<char> = trim(chars.as_slice());
    let value: u32 = match parse_number(core.as_slice(), u32::MAX as u64) {
        Ok(number) => number as u32,
        Err(_) => current,
    };
    if value < min {
        min
    } else if value > max {
        max
    } else {
        value
    }
}

/// One or zero.
pub open spec fn one_if(yes: bool) -> u32 {
    if yes {
        1
    } else {
        0
    }
}

/// The edits that hand a form to the host.
pub fn form_edits(form: &EditorForm, current: StreamParameters) -> (edits: Vec<(u32, u32)>)
    ensures
        edits@ == seq![
            (PARAM_ENABLED, one_if(form.enabled)),
            (PARAM_MODE, one_if(form.receive)),
            (PARAM_TRANSPORT, one_if(form.multicast)),
            (
                PARAM_CHANNELS,
                field_number(form.channels@, current.channels as u32, 1, MAX_CHANNELS as u32),
            ),
            (PARAM_PORT, field_number(form.port@, current.port as u32, 1, u16::MAX as u32)),
            (PARAM_IP_1, field_number(form.ip@[0]@, current.ip@[0] as u32, 0, 255)),
            (PARAM_IP_2, field_number(form.ip@[1]@, current.ip@[1] as u32, 0, 255)),
            (PARAM_IP_3, field_number(form.ip@[2]@, current.ip@[2] as u32, 0, 255)),
            (PARAM_IP_4, field_number(form.ip@[3]@, current.ip@[3] as u32, 0, 255)),
        ],
{
    let enabled: u32 = if form.enabled {
        1
    } else {
        0
    };
    let mode: u32 = if form.receive {
        1
    } else {
        0
    };
    let transport: u32 = if form.multicast {
        1
    } else {
        0
    };
    let channels: u32 = parse_field(
        form.channels.as_str(),
        current.channels as u32,
        1,
        MAX_CHANNELS as u32,
    );
    let port: u32 = parse_field(form.port.as_str(), current.port as u32, 1, u16::MAX as u32);
    let first: u32 = parse_field(form.ip[0].as_str(), current.ip[0] as u32, 0, 255);
    let second: u32 = parse_field(form.ip[1].as_str(), current.ip[1] as u32, 0, 255);
    let third: u32 = parse_field(form.ip[2].as_str(), current.ip[2] as u32, 0, 255);
    let fourth: u32 = parse_field(form.ip[3].as_str(), current.ip[3] as u32, 0, 255);
    vec![
        (PARAM_ENABLED, enabled),
        (PARAM_MODE, mode),
        (PARAM_TRANSPORT, transport),
        (PARAM_CHANNELS, channels),
        (PARAM_PORT, port),
        (PARAM_IP_1, first),
        (PARAM_IP_2, second),
        (PARAM_IP_3, third),
        (PARAM_IP_4, fourth),
    ]
}

/// What the editor's window loop has to do.
#[derive(Clone, Copy, Debug, PartialEq, Eq, Structural)]
pub struct LoopStep {
    pub refresh_status: bool,
    pub draw: bool,
}

/// The editor's window loop.
#[derive(Clone, Copy, Debug, PartialEq, Eq, Structural)]
pub struct EditorLoop {
    pub running: bool,
    pub redraw: bool,
    pub last_status_ms: u64,
}

impl EditorLoop {
    /// A window that was just opened: it is to be drawn.
    pub fn new(now_ms: u64) -> (window: Self)
        ensures
            window == (EditorLoop { running: true, redraw: true, last_status_ms: now_ms }),
    {
        EditorLoop { running: true, redraw: true, last_status_ms: now_ms }
    }

    /// The window was uncovered.
    pub fn on_expose(&mut self)
        ensures
            *final(self) == (EditorLoop { redraw: true, ..*old(self) }),
    {
        self.redraw = true;
    }

    /// A click was handled.
    pub fn on_click(&mut self, request: EditorRequest)
        ensures
            *final(self) == (EditorLoop {
                redraw: old(self).redraw || request != EditorRequest::Nothing,
                ..*old(self)
            }),
    {
        if request != EditorRequest::Nothing {
            self.redraw = true;
        }
    }

    /// The window was destroyed.
    pub fn on_destroy(&mut self)
        ensures
            *final(self) == (EditorLoop { running: false, ..*old(self) }),
    {
        self.running = false;
    }

    /// One round of the loop: the runtime status is looked at every `EDITOR_STATUS_INTERVAL_MS`,
    /// and the window drawn after that and after whatever else asked for it.
    pub fn tick(&mut self, now_ms: u64) -> (step: LoopStep)
        ensures
            step.refresh_status == (now_ms >= old(self).last_status_ms
                + EDITOR_STATUS_INTERVAL_MS),
            step.draw == (old(self).redraw || step.refresh_status),
            *final(self) == (EditorLoop {
                redraw: false,
                last_status_ms: if step.refresh_status {
                    now_ms
                } else {
                    old(self).last_status_ms
                },
                ..*old(self)
            }),
    {
        let refresh_status: bool = now_ms.saturating_sub(self.last_status_ms)
            >= EDITOR_STATUS_INTERVAL_MS;
        if refresh_status {
            self.redraw = true;
            self.last_status_ms = now_ms;
        }
        let draw: bool = self.redraw;
        self.redraw = false;
        LoopStep { refresh_status, draw }
    }
}

/// What each of the editor's controls does to the edited stream, and nothing besides: switches set what
/// they name, channels step by one between 1 and 64, the port by ten above 0, the clock domain by one
/// up to 127, and each octet by one up to 255. Choosing the local clock puts the domain to zero.
pub proof fn law_controls_do_what_they_name(params: StreamParameters, control: Control)
    requires
        control.wf(),
    ensures
        control.action() matches Some(action) ==> {
            let after = clicked(params, action);
            match control {
                Control::Arm => after == (StreamParameters { enabled: !params.enabled, ..params }),
                Control::ModeSend => after == (StreamParameters { mode: StreamMode::Send, ..params }),
                Control::ModeReceive => after == (StreamParameters {
                    mode: StreamMode::Receive,
                    ..params
                }),
                Control::TransportUnicast => after == (StreamParameters {
                    transport: StreamTransport::Unicast,
                    ..params
                }),
                Control::TransportMulticast => after == (StreamParameters {
                    transport: StreamTransport::Multicast,
                    ..params
                }),
                Control::ClockLocal => after == (StreamParameters {
                    clock_reference: ClockReference::Local,
                    ptp_domain: 0,
                    ..params
                }),
                Control::ClockPtp => after == (StreamParameters {
                    clock_reference: ClockReference::Ptp,
                    ..params
                }),
                Control::ChannelsMinus => {
                    &&& 2 <= params.channels <= 65 ==> after.channels == params.channels - 1
                    &&& params.channels < 2 ==> after.channels == 1
                    &&& after == (StreamParameters { channels: after.channels, ..params })
                },
                Control::ChannelsPlus => {
                    &&& params.channels < 64 ==> after.channels == params.channels + 1
                    &&& params.channels >= 64 ==> after.channels == 64
                    &&& after == (StreamParameters { channels: after.channels, ..params })
                },
                Control::PortMinus => {
                    &&& params.port > 10 ==> after.port == params.port - 10
                    &&& params.port <= 10 ==> after.port == 1
                    &&& after == (StreamParameters { port: after.port, ..params })
                },
                Control::PortPlus => {
                    &&& params.port <= 65_525 ==> after.port == params.port + 10
                    &&& params.port > 65_525 ==> after.port == 65_535
                    &&& after == (StreamParameters { port: after.port, ..params })
                },
                Control::PtpMinus => {
                    &&& 0 < params.ptp_domain <= 128 ==> after.ptp_domain == params.ptp_domain - 1
                    &&& params.ptp_domain == 0 ==> after.ptp_domain == 0
                    &&& after == (StreamParameters { ptp_domain: after.ptp_domain, ..params })
                },
                Control::PtpPlus => {
                    &&& params.ptp_domain < 127 ==> after.ptp_domain == params.ptp_domain + 1
                    &&& params.ptp_domain >= 127 ==> after.ptp_domain == 127
                    &&& after == (StreamParameters { ptp_domain: after.ptp_domain, ..params })
                },
                Control::IpMinus(index) => {
                    &&& params.ip@[index as int] > 0 ==> after.ip@[index as int]
                        == params.ip@[index as int] - 1
                    &&& params.ip@[index as int] == 0 ==> after.ip@[index as int] == 0
                    &&& forall|i: int|
                        0 <= i < 4 && i != index ==> #[trigger] after.ip@[i] == params.ip@[i]
                    &&& after == (StreamParameters { ip: after.ip, ..params })
                },
                Control::IpPlus(index) => {
                    &&& params.ip@[index as int] < 255 ==> after.ip@[index as int]
                        == params.ip@[index as int] + 1
                    &&& params.ip@[index as int] == 255 ==> after.ip@[index as int] == 255
                    &&& forall|i: int|
                        0 <= i < 4 && i != index ==> #[trigger] after.ip@[i] == params.ip@[i]
                    &&& after == (StreamParameters { ip: after.ip, ..params })
                },
                _ => after == params,
            }
        },
        control.action() is None <==> control is ChannelsValue || control is PortValue
            || control is PtpValue || control is IpValue || control is RuntimePanel,
{
    if let Some(action) = control.action() {
        let after = clicked(params, action);
        assert forall|i: int| 0 <= i < 4 implies #[trigger] after.ip@[i] == (match action {
            ClickAction::AdjustIp(index, delta) => if i == index {
                stepped(params.ip@[i] as int, delta as int, 0, 255) as u8
            } else {
                params.ip@[i]
            },
            _ => params.ip@[i],
        }) by {}
    }
}

/// Arming tells the host at once whether the stream is on now. Applying hands the stream on. Everything
/// else only asks for the editor to be drawn again.
pub proof fn law_controls_ask_the_host(params: StreamParameters, control: Control)
    requires
        control.wf(),
        control.action() is Some,
    ensures
        ({
            let after = clicked(params, control.action()->0);
            let request = request_of(after, control.action()->0);
            &&& control == Control::Arm ==> request == EditorRequest::SetEnabled(!params.enabled)
            &&& control == Control::Apply ==> request == EditorRequest::ApplyStream
            &&& control != Control::Arm && control != Control::Apply ==> request
                == EditorRequest::Redraw
        }),
{
}

/// What the host is handed: nothing for a drawing, whether the stream is on for arming, and for applying
/// the ten parameters of the stream and then the token, counted on.
pub proof fn law_requests_become_edits(
    params: StreamParameters,
    token: u32,
    enabled: bool,
)
    ensures
        edits_for(EditorRequest::Nothing, params, token).len() == 0,
        edits_for(EditorRequest::Redraw, params, token).len() == 0,
        edits_for(EditorRequest::SetEnabled(enabled), params, token) == seq![
            (
                0u32,
                if enabled {
                    1u32
                } else {
                    0u32
                },
            ),
        ],
        edits_for(EditorRequest::ApplyStream, params, token).len() == 11,
        token < 65_535 ==> edits_for(EditorRequest::ApplyStream, params, token)[10] == (
            11u32,
            (token + 1) as u32,
        ),
        token == 65_535 ==> edits_for(EditorRequest::ApplyStream, params, token)[10] == (11u32, 0u32),
{
}

/// A stepper's buttons stand on either side of its value, the one that takes away on the left, and
/// a switch's halves side by side.
pub proof fn law_controls_stand_in_order(index: usize)
    requires
        index < 4,
    ensures
        stands_left_of(Control::ModeSend, Control::ModeReceive),
        stands_left_of(Control::TransportUnicast, Control::TransportMulticast),
        stands_left_of(Control::ClockLocal, Control::ClockPtp),
        stands_left_of(Control::ChannelsMinus, Control::ChannelsValue),
        stands_left_of(Control::ChannelsValue, Control::ChannelsPlus),
        stands_left_of(Control::PortMinus, Control::PortValue),
        stands_left_of(Control::PortValue, Control::PortPlus),
        stands_left_of(Control::PtpMinus, Control::PtpValue),
        stands_left_of(Control::PtpValue, Control::PtpPlus),
        stands_left_of(Control::IpMinus(index), Control::IpValue(index)),
        stands_left_of(Control::IpValue(index), Control::IpPlus(index)),
        index < 3 ==> stands_left_of(Control::IpPlus(index), Control::IpMinus((index + 1) as usize)),
{
}

/// Whether a control stands left of another in the same row.
pub open spec fn stands_left_of(one: Control, other: Control) -> bool {
    &&& one.place().x + one.place().w <= other.place().x
    &&& one.place().y == other.place().y
    &&& one.place().h == other.place().h
}

/// A field with a number in it, whatever space is around it, sets that number, held in its range. One
/// with anything else leaves what is set.
pub proof fn law_fields_hold_numbers(text: Seq<char>, number: nat, current: u32, min: u32, max: u32)
    requires
        min <= max,
    ensures
        crate::lines::trimmed(text) == crate::text::decimal(number) && min <= number <= max
            ==> field_number(text, current, min, max) == number,
        crate::lines::trimmed(text) == crate::text::decimal(number) && number < min ==> field_number(
            text,
            current,
            min,
            max,
        ) == min,
        crate::lines::trimmed(text) == crate::text::decimal(number) && max < number <= u32::MAX
            ==> field_number(text, current, min, max) == max,
        crate::text::number_of(crate::lines::trimmed(text), u32::MAX as nat) is Err && min <= current
            <= max ==> field_number(text, current, min, max) == current,
{
    if number <= u32::MAX {
        crate::text::law_decimal_round_trip(number, u32::MAX as nat);
    }
}

/// A rectangle holds the points from its upper left corner on, as many as it is wide and high.
pub proof fn law_rectangles_hold_their_points(rect: Rect, dx: int, dy: int, x: i32, y: i32)
    requires
        x == rect.x + dx,
        y == rect.y + dy,
    ensures
        rect.holds(x, y) <==> 0 <= dx < rect.w && 0 <= dy < rect.h,
{
}

/// Every control lies in the view and is large enough to be hit.
pub proof fn law_controls_can_be_hit(control: Control)
    requires
        control.wf(),
    ensures
        ({
            let rect = control.place();
            &&& 0 <= rect.x && rect.x + rect.w <= 500
            &&& 0 <= rect.y && rect.y + rect.h <= 492
            &&& rect.w >= 22 && rect.h >= 24
        }),
{
}

} // verus!
