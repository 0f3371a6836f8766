//! What the editor looks like: its colours, its words, and what is drawn where.

use crate::editor::{Control, Rect, VIEW_HEIGHT, VIEW_WIDTH};
use crate::stream::{ClockReference, StreamMode, StreamParameters, StreamTransport};
use crate::text::decimal_text;
use vstd::prelude::*;
use vstd::string::*;

verus! {

/// A colour.
#[derive(Clone, Copy, Debug, PartialEq, Eq, Structural)]
pub struct Rgb {
    pub r: u8,
    pub g: u8,
    pub b: u8,
}

impl Rgb {
    /// The colour as one number, red first.
    pub fn red_first(self) -> (pixel: u32)
        ensures
            pixel == self.r * 0x1_0000 + self.g * 0x100 + self.b,
    {
        self.r as u32 * 0x1_0000 + self.g as u32 * 0x100 + self.b as u32
    }

    /// The colour as one number, blue first.
    pub fn blue_first(self) -> (pixel: u32)
        ensures
            pixel == self.b * 0x1_0000 + self.g * 0x100 + self.r,
    {
        self.b as u32 * 0x1_0000 + self.g as u32 * 0x100 + self.r as u32
    }
}

/// The editor's colours.
#[derive(Clone, Copy, Debug, PartialEq, Eq, Structural)]
pub struct Theme {
    pub background: Rgb,
    pub panel_fill: Rgb,
    pub field_fill: Rgb,
    pub rule: Rgb,
    pub text: Rgb,
    pub secondary_text: Rgb,
    pub accent: Rgb,
    pub selected_fill: Rgb,
}

/// A sender's editor is warm, a receiver's green.
pub open spec fn theme_of(mode: StreamMode) -> Theme {
    match mode {
        StreamMode::Send => Theme {
            background: Rgb { r: 237, g: 232, b: 219 },
            panel_fill: Rgb { r: 250, g: 247, b: 240 },
            field_fill: Rgb { r: 250, g: 247, b: 240 },
            rule: Rgb { r: 194, g: 186, b: 171 },
            text: Rgb { r: 31, g: 31, b: 28 },
            secondary_text: Rgb { r: 97, g: 99, b: 92 },
            accent: Rgb { r: 117, g: 79, b: 46 },
            selected_fill: Rgb { r: 227, g: 214, b: 191 },
        },
        StreamMode::Receive => Theme {
            background: Rgb { r: 230, g: 235, b: 230 },
            panel_fill: Rgb { r: 242, g: 247, b: 242 },
            field_fill: Rgb { r: 247, g: 250, b: 247 },
            rule: Rgb { r: 161, g: 176, b: 166 },
            text: Rgb { r: 31, g: 31, b: 28 },
            secondary_text: Rgb { r: 89, g: 102, b: 94 },
            accent: Rgb { r: 48, g: 87, b: 69 },
            selected_fill: Rgb { r: 212, g: 227, b: 217 },
        },
    }
}

/// The editor's colours.
pub fn theme(mode: StreamMode) -> (theme: Theme)
    ensures
        theme == theme_of(mode),
{
    match mode {
        StreamMode::Send => Theme {
            background: Rgb { r: 237, g: 232, b: 219 },
            panel_fill: Rgb { r: 250, g: 247, b: 240 },
            field_fill: Rgb { r: 250, g: 247, b: 240 },
            rule: Rgb { r: 194, g: 186, b: 171 },
            text: Rgb { r: 31, g: 31, b: 28 },
            secondary_text: Rgb { r: 97, g: 99, b: 92 },
            accent: Rgb { r: 117, g: 79, b: 46 },
            selected_fill: Rgb { r: 227, g: 214, b: 191 },
        },
        StreamMode::Receive => Theme {
            background: Rgb { r: 230, g: 235, b: 230 },
            panel_fill: Rgb { r: 242, g: 247, b: 242 },
            field_fill: Rgb { r: 247, g: 250, b: 247 },
            rule: Rgb { r: 161, g: 176, b: 166 },
            text: Rgb { r: 31, g: 31, b: 28 },
            secondary_text: Rgb { r: 89, g: 102, b: 94 },
            accent: Rgb { r: 48, g: 87, b: 69 },
            selected_fill: Rgb { r: 212, g: 227, b: 217 },
        },
    }
}

/// What the address field is called.
pub open spec fn endpoint_title(params: StreamParameters) -> Seq<char> {
    match (params.mode, params.transport) {
        (StreamMode::Send, StreamTransport::Unicast) => "Destination IP"@,
        (StreamMode::Send, StreamTransport::Multicast) => "Group IP"@,
        (StreamMode::Receive, StreamTransport::Unicast) => "Expected Source"@,
        (StreamMode::Receive, StreamTransport::Multicast) => "Group IP"@,
    }
}

pub fn endpoint_label_text(params: StreamParameters) -> (text: &'static str)
    ensures
        text@ == endpoint_title(params),
{
    match (params.mode, params.transport) {
        (StreamMode::Send, StreamTransport::Unicast) => "Destination IP",
        (StreamMode::Send, StreamTransport::Multicast) => "Group IP",
        (StreamMode::Receive, StreamTransport::Unicast) => "Expected Source",
        (StreamMode::Receive, StreamTransport::Multicast) => "Group IP",
    }
}

/// What the address field is for.
pub open spec fn endpoint_hint(params: StreamParameters) -> Seq<char> {
    match (params.mode, params.transport) {
        (StreamMode::Send, StreamTransport::Unicast) => "Send directly to one host"@,
        (StreamMode::Send, StreamTransport::Multicast) => "Publish once for many downstream receivers"@,
        (StreamMode::Receive, StreamTransport::Unicast) => "0.0.0.0 accepts any sender on this port"@,
        (StreamMode::Receive, StreamTransport::Multicast) => "Join this multicast group on the local interface"@,
    }
}

pub fn endpoint_hint_text(params: StreamParameters) -> (text: &'static str)
    ensures
        text@ == endpoint_hint(params),
{
    match (params.mode, params.transport) {
        (StreamMode::Send, StreamTransport::Unicast) => "Send directly to one host",
        (StreamMode::Send, StreamTransport::Multicast) => "Publish once for many downstream receivers",
        (StreamMode::Receive, StreamTransport::Unicast) => "0.0.0.0 accepts any sender on this port",
        (StreamMode::Receive, StreamTransport::Multicast) => "Join this multicast group on the local interface",
    }
}

/// How a window system places text: at the start of its base line, or in a box.
#[derive(Clone, Copy, Debug, PartialEq, Eq, Structural)]
pub enum Surface {
    X11,
    Win32,
}

/// One thing that is drawn.
pub enum DrawOp {
    Fill { rect: Rect, color: Rgb },
    Frame { rect: Rect, color: Rgb },
    /// Text from a point on, or centred in a box.
    Text { text: String, at: Rect, color: Rgb, centered: bool },
}

/// One thing that is drawn, by what it shows.
pub enum Drawn {
    Fill { rect: Rect, color: Rgb },
    Frame { rect: Rect, color: Rgb },
    Text { text: Seq<char>, at: Rect, color: Rgb, centered: bool },
}

impl DrawOp {
    pub open spec fn shown(self) -> Drawn {
        match self {
            DrawOp::Fill { rect, color } => Drawn::Fill { rect, color },
            DrawOp::Frame { rect, color } => Drawn::Frame { rect, color },
            DrawOp::Text { text, at, color, centered } => Drawn::Text {
                text: text@,
                at,
                color,
                centered,
            },
        }
    }
}

/// What is drawn, in order.
pub open spec fn drawn(ops: Seq<DrawOp>) -> Seq<Drawn> {
    ops.map_values(|op: DrawOp| op.shown())
}

/// A panel: a filled box with a rule around it.
pub open spec fn panel(rect: Rect, fill: Rgb, rule: Rgb) -> Seq<Drawn> {
    seq![Drawn::Fill { rect, color: fill }, Drawn::Frame { rect, color: rule }]
}

/// Where the text in a box goes: in it, or to the start of a line through its middle.
pub open spec fn boxed_place(surface: Surface, rect: Rect) -> Rect {
    match surface {
        Surface::X11 => Rect {
            x: (rect.x + 8) as i32,
            y: (rect.y + rect.h / 2 + 5) as i32,
            w: 0,
            h: 0,
        },
        Surface::Win32 => Rect { x: rect.x, y: (rect.y + 1) as i32, w: rect.w, h: rect.h },
    }
}

/// Text in a box.
pub open spec fn boxed_text(surface: Surface, text: Seq<char>, rect: Rect, color: Rgb) -> Seq<Drawn> {
    seq![
        Drawn::Text {
            text,
            at: boxed_place(surface, rect),
            color,
            centered: surface is Win32,
        },
    ]
}

/// Where a line of text goes: its box, or the start of its base line, so much below the box's top.
pub open spec fn line_place(surface: Surface, rect: Rect, below: i32) -> Rect {
    match surface {
        Surface::X11 => Rect { x: rect.x, y: (rect.y + below) as i32, w: 0, h: 0 },
        Surface::Win32 => rect,
    }
}

/// A line of text.
pub open spec fn text_line(
    surface: Surface,
    text: Seq<char>,
    rect: Rect,
    below: i32,
    color: Rgb,
) -> Seq<Drawn> {
    seq![
        Drawn::Text { text, at: line_place(surface, rect, below), color, centered: false },
    ]
}

/// A label.
pub open spec fn label(surface: Surface, text: Seq<char>, x: i32, y: i32, theme: Theme) -> Seq<Drawn> {
    text_line(surface, text, Rect { x, y, w: 160, h: 18 }, 14, theme.text)
}

/// A button, which can be selected.
pub open spec fn button(
    surface: Surface,
    rect: Rect,
    text: Seq<char>,
    selected: bool,
    theme: Theme,
) -> Seq<Drawn> {
    panel(
        rect,
        if selected {
            theme.selected_fill
        } else {
            theme.field_fill
        },
        theme.rule,
    ) + boxed_text(
        surface,
        text,
        rect,
        if selected {
            theme.accent
        } else {
            theme.text
        },
    )
}

/// The colours of what cannot be used.
pub open spec fn dimmed(theme: Theme) -> Theme {
    Theme {
        text: theme.secondary_text,
        selected_fill: theme.field_fill,
        accent: theme.secondary_text,
        ..theme
    }
}

/// A value between two buttons.
pub open spec fn stepper(
    surface: Surface,
    minus: Rect,
    value: Rect,
    plus: Rect,
    text: Seq<char>,
    enabled: bool,
    theme: Theme,
) -> Seq<Drawn> {
    let effective = if enabled {
        theme
    } else {
        dimmed(theme)
    };
    button(surface, minus, "-"@, false, effective) + panel(
        value,
        effective.field_fill,
        effective.rule,
    ) + boxed_text(surface, text, value, effective.text) + button(
        surface,
        plus,
        "+"@,
        false,
        effective,
    )
}

/// The stepper of a number of the address.
pub open spec fn octet_stepper(
    surface: Surface,
    params: StreamParameters,
    index: usize,
    theme: Theme,
) -> Seq<Drawn> {
    stepper(
        surface,
        Control::IpMinus(index).place(),
        Control::IpValue(index).place(),
        Control::IpPlus(index).place(),
        crate::text::decimal(params.ip@[index as int] as nat),
        true,
        theme,
    )
}

/// A line of the runtime status.
pub open spec fn status_line(surface: Surface, text: Seq<char>, index: int, theme: Theme) -> Seq<Drawn> {
    text_line(
        surface,
        text,
        Rect { x: 40, y: (394 + 20 * index) as i32, w: 420, h: 18 },
        14,
        theme.text,
    )
}

/// The head of the editor: its name, the mode, and the button that arms it.
pub open spec fn head(surface: Surface, params: StreamParameters, theme: Theme) -> Seq<Drawn> {
    seq![
        Drawn::Fill {
            rect: Rect { x: 0, y: 0, w: VIEW_WIDTH, h: VIEW_HEIGHT },
            color: theme.background,
        },
    ] + text_line(
        surface,
        match surface {
            Surface::X11 => "SomeNET"@,
            Surface::Win32 => "SOMETHINGNET"@,
        },
        Rect { x: 24, y: 34, w: 220, h: 22 },
        8,
        theme.text,
    ) + text_line(
        surface,
        match params.mode {
            StreamMode::Send => "SEND"@,
            StreamMode::Receive => "RECEIVE"@,
        },
        Rect { x: 152, y: 38, w: 96, h: 18 },
        6,
        theme.accent,
    ) + button(surface, Control::Arm.place(), "ARM"@, params.enabled, theme)
}

/// The choice of the mode.
pub open spec fn mode_choice(surface: Surface, params: StreamParameters, theme: Theme) -> Seq<Drawn> {
    label(surface, "Mode"@, 24, 118, theme) + button(
        surface,
        Control::ModeSend.place(),
        "Send"@,
        params.mode is Send,
        theme,
    ) + button(
        surface,
        Control::ModeReceive.place(),
        "Receive"@,
        params.mode is Receive,
        theme,
    )
}

/// The choice of the transport.
pub open spec fn transport_choice(surface: Surface, params: StreamParameters, theme: Theme) -> Seq<
    Drawn,
> {
    label(surface, "Transport"@, 236, 118, theme) + button(
        surface,
        Control::TransportUnicast.place(),
        "Unicast"@,
        params.transport is Unicast,
        theme,
    ) + button(
        surface,
        Control::TransportMulticast.place(),
        "Multicast"@,
        params.transport is Multicast,
        theme,
    )
}

/// The choice of the clock.
pub open spec fn clock_choice(surface: Surface, params: StreamParameters, theme: Theme) -> Seq<Drawn> {
    label(surface, "Clock"@, 24, 164, theme) + button(
        surface,
        Control::ClockLocal.place(),
        "Local"@,
        params.clock_reference is Local,
        theme,
    ) + button(
        surface,
        Control::ClockPtp.place(),
        "PTP"@,
        params.clock_reference is Ptp,
        theme,
    )
}

/// The clock's domain.
pub open spec fn domain_number(surface: Surface, params: StreamParameters, theme: Theme) -> Seq<
    Drawn,
> {
    label(surface, "PTP Domain"@, 236, 164, theme) + stepper(
        surface,
        Control::PtpMinus.place(),
        Control::PtpValue.place(),
        Control::PtpPlus.place(),
        crate::text::decimal(params.ptp_domain as nat),
        params.clock_reference is Ptp,
        theme,
    )
}

/// The channel count and the port.
pub open spec fn stream_numbers(surface: Surface, params: StreamParameters, theme: Theme) -> Seq<
    Drawn,
> {
    label(surface, "Channels"@, 24, 214, theme) + stepper(
        surface,
        Control::ChannelsMinus.place(),
        Control::ChannelsValue.place(),
        Control::ChannelsPlus.place(),
        crate::text::decimal(params.channels as nat),
        true,
        theme,
    ) + label(surface, "Port"@, 214, 214, theme) + stepper(
        surface,
        Control::PortMinus.place(),
        Control::PortValue.place(),
        Control::PortPlus.place(),
        crate::text::decimal(params.port as nat),
        true,
        theme,
    )
}

/// The name of the address and what it is for.
pub open spec fn endpoint_words(surface: Surface, params: StreamParameters, theme: Theme) -> Seq<
    Drawn,
> {
    label(surface, endpoint_title(params), 24, 260, theme) + text_line(
        surface,
        endpoint_hint(params),
        Rect { x: 150, y: 260, w: 320, h: 18 },
        14,
        theme.secondary_text,
    )
}

/// The numbers of the address.
pub open spec fn endpoint_numbers(surface: Surface, params: StreamParameters, theme: Theme) -> Seq<
    Drawn,
> {
    octet_stepper(surface, params, 0, theme) + octet_stepper(surface, params, 1, theme)
        + octet_stepper(surface, params, 2, theme) + octet_stepper(surface, params, 3, theme)
}

/// The foot of the editor: the button that applies the stream, and the runtime status.
pub open spec fn foot(surface: Surface, status: Seq<Seq<char>>, theme: Theme) -> Seq<Drawn> {
    button(surface, Control::Apply.place(), "Apply"@, false, theme) + panel(
        Control::RuntimePanel.place(),
        theme.panel_fill,
        theme.rule,
    ) + text_line(
        surface,
        "Runtime"@,
        Rect { x: 24, y: 350, w: 120, h: 18 },
        14,
        theme.text,
    ) + status_line(surface, status[0], 0, theme) + status_line(surface, status[1], 1, theme)
        + status_line(surface, status[2], 2, theme) + status_line(surface, status[3], 3, theme)
}

/// The editor.
pub open spec fn scene(surface: Surface, params: StreamParameters, status: Seq<Seq<char>>) -> Seq<Drawn> {
    let theme = theme_of(params.mode);
    head(surface, params, theme) + mode_choice(surface, params, theme) + transport_choice(
        surface,
        params,
        theme,
    ) + clock_choice(surface, params, theme) + domain_number(surface, params, theme)
        + stream_numbers(surface, params, theme) + endpoint_words(surface, params, theme)
        + endpoint_numbers(surface, params, theme) + foot(surface, status, theme)
}

/// The editor as it is drawn.
struct Canvas {
    surface: Surface,
    ops: Vec<DrawOp>,
}

impl Canvas {
    fn push(&mut self, op: DrawOp)
        ensures
            final(self).surface == old(self).surface,
            drawn(final(self).ops@) == drawn(old(self).ops@).push(op.shown()),
    {
        let ghost before = drawn(self.ops@);
        self.ops.push(op);
        proof {
            assert(drawn(self.ops@) =~= before.push(op.shown()));
        }
    }

    fn panel(&mut self, rect: Rect, fill: Rgb, rule: Rgb)
        ensures
            final(self).surface == old(self).surface,
            drawn(final(self).ops@) == drawn(old(self).ops@) + panel(rect, fill, rule),
    {
        let ghost before = drawn(self.ops@);
        self.push(DrawOp::Fill { rect, color: fill });
        self.push(DrawOp::Frame { rect, color: rule });
        proof {
            assert(drawn(self.ops@) =~= before + panel(rect, fill, rule));
        }
    }

    fn boxed_text(&mut self, text: &str, rect: Rect, color: Rgb)
        requires
            0 <= rect.x <= 1000,
            0 <= rect.y <= 1000,
            0 <= rect.h <= 1000,
        ensures
            final(self).surface == old(self).surface,
            drawn(final(self).ops@) == drawn(old(self).ops@) + boxed_text(
                old(self).surface,
                text@,
                rect,
                color,
            ),
    {
        let ghost before = drawn(self.ops@);
        let (at, centered) = match self.surface {
            Surface::X11 => (
                Rect { x: rect.x + 8, y: rect.y + rect.h / 2 + 5, w: 0, h: 0 },
                false,
            ),
            Surface::Win32 => (Rect { x: rect.x, y: rect.y + 1, w: rect.w, h: rect.h }, true),
        };
        self.push(DrawOp::Text { text: text.to_owned(), at, color, centered });
        proof {
            assert(drawn(self.ops@) =~= before + boxed_text(self.surface, text@, rect, color));
        }
    }

    fn text_line(&mut self, text: &str, rect: Rect, below: i32, color: Rgb)
        requires
            0 <= rect.y <= 1000,
            0 <= below <= 100,
        ensures
            final(self).surface == old(self).surface,
            drawn(final(self).ops@) == drawn(old(self).ops@) + text_line(
                old(self).surface,
                text@,
                rect,
                below,
                color,
            ),
    {
        let ghost before = drawn(self.ops@);
        let at: Rect = match self.surface {
            Surface::X11 => Rect { x: rect.x, y: rect.y + below, w: 0, h: 0 },
            Surface::Win32 => rect,
        };
        self.push(DrawOp::Text { text: text.to_owned(), at, color, centered: false });
        proof {
            assert(drawn(self.ops@) =~= before + text_line(
                self.surface,
                text@,
                rect,
                below,
                color,
            ));
        }
    }

    fn label(&mut self, text: &str, x: i32, y: i32, theme: Theme)
        requires
            0 <= y <= 1000,
        ensures
            final(self).surface == old(self).surface,
            drawn(final(self).ops@) == drawn(old(self).ops@) + label(
                old(self).surface,
                text@,
                x,
                y,
                theme,
            ),
    {
        self.text_line(text, Rect { x, y, w: 160, h: 18 }, 14, theme.text);
    }

    fn button(&mut self, rect: Rect, text: &str, selected: bool, theme: Theme)
        requires
            0 <= rect.x <= 1000,
            0 <= rect.y <= 1000,
            0 <= rect.h <= 1000,
        ensures
            final(self).surface == old(self).surface,
            drawn(final(self).ops@) == drawn(old(self).ops@) + button(
                old(self).surface,
                rect,
                text@,
                selected,
                theme,
            ),
    {
        let ghost before = drawn(self.ops@);
        let fill: Rgb = if selected {
            theme.selected_fill
        } else {
            theme.field_fill
        };
        let color: Rgb = if selected {
            theme.accent
        } else {
            theme.text
        };
        self.panel(rect, fill, theme.rule);
        self.boxed_text(text, rect, color);
        proof {
            assert(drawn(self.ops@) =~= before + button(
                self.surface,
                rect,
                text@,
                selected,
                theme,
            ));
        }
    }

    fn stepper(
        &mut self,
        minus: Control,
        value: Control,
        plus: Control,
        number: u64,
        enabled: bool,
        theme: Theme,
    )
        requires
            minus.wf(),
            value.wf(),
            plus.wf(),
        ensures
            final(self).surface == old(self).surface,
            drawn(final(self).ops@) == drawn(old(self).ops@) + stepper(
                old(self).surface,
                minus.place(),
                value.place(),
                plus.place(),
                crate::text::decimal(number as nat),
                enabled,
                theme,
            ),
    {
        let ghost before = drawn(self.ops@);
        let effective: Theme = if enabled {
            theme
        } else {
            Theme {
                background: theme.background,
                panel_fill: theme.panel_fill,
                field_fill: theme.field_fill,
                rule: theme.rule,
                text: theme.secondary_text,
                secondary_text: theme.secondary_text,
                accent: theme.secondary_text,
                selected_fill: theme.field_fill,
            }
        };
        let text: String = decimal_text(number);
        self.button(minus.rect(), "-", false, effective);
        self.panel(value.rect(), effective.field_fill, effective.rule);
        self.boxed_text(text.as_str(), value.rect(), effective.text);
        self.button(plus.rect(), "+", false, effective);
        proof {
            assert(drawn(self.ops@) =~= before + stepper(
                self.surface,
                minus.place(),
                value.place(),
                plus.place(),
                crate::text::decimal(number as nat),
                enabled,
                theme,
            ));
        }
    }

    fn head(&mut self, params: StreamParameters, theme: Theme)
        ensures
            final(self).surface == old(self).surface,
            drawn(final(self).ops@) == drawn(old(self).ops@) + head(
                old(self).surface,
                params,
                theme,
            ),
    {
        let ghost before = drawn(self.ops@);
        self.push(
            DrawOp::Fill {
                rect: Rect { x: 0, y: 0, w: VIEW_WIDTH, h: VIEW_HEIGHT },
                color: theme.background,
            },
        );
        let name: &'static str = match self.surface {
            Surface::X11 => "SomeNET",
            Surface::Win32 => "SOMETHINGNET",
        };
        self.text_line(name, Rect { x: 24, y: 34, w: 220, h: 22 }, 8, theme.text);
        let mode: &'static str = match params.mode {
            StreamMode::Send => "SEND",
            StreamMode::Receive => "RECEIVE",
        };
        self.text_line(mode, Rect { x: 152, y: 38, w: 96, h: 18 }, 6, theme.accent);
        self.button(Control::Arm.rect(), "ARM", params.enabled, theme);
        proof {
            assert(drawn(self.ops@) =~= before + head(self.surface, params, theme));
        }
    }

    fn mode_choice(&mut self, params: StreamParameters, theme: Theme)
        ensures
            final(self).surface == old(self).surface,
            drawn(final(self).ops@) == drawn(old(self).ops@) + mode_choice(
                old(self).surface,
                params,
                theme,
            ),
    {
        let ghost before = drawn(self.ops@);
        self.label("Mode", 24, 118, theme);
        self.button(
            Control::ModeSend.rect(),
            "Send",
            params.mode == StreamMode::Send,
            theme,
        );
        self.button(
            Control::ModeReceive.rect(),
            "Receive",
            params.mode == StreamMode::Receive,
            theme,
        );
        proof {
            assert(drawn(self.ops@) =~= before + mode_choice(self.surface, params, theme));
        }
    }

    fn transport_choice(&mut self, params: StreamParameters, theme: Theme)
        ensures
            final(self).surface == old(self).surface,
            drawn(final(self).ops@) == drawn(old(self).ops@) + transport_choice(
                old(self).surface,
                params,
                theme,
            ),
    {
        let ghost before = drawn(self.ops@);
        self.label("Transport", 236, 118, theme);
        self.button(
            Control::TransportUnicast.rect(),
            "Unicast",
            params.transport == StreamTransport::Unicast,
            theme,
        );
        self.button(
            Control::TransportMulticast.rect(),
            "Multicast",
            params.transport == StreamTransport::Multicast,
            theme,
        );
        proof {
            assert(drawn(self.ops@) =~= before + transport_choice(self.surface, params, theme));
        }
    }

    fn clock_choice(&mut self, params: StreamParameters, theme: Theme)
        ensures
            final(self).surface == old(self).surface,
            drawn(final(self).ops@) == drawn(old(self).ops@) + clock_choice(
                old(self).surface,
                params,
                theme,
            ),
    {
        let ghost before = drawn(self.ops@);
        self.label("Clock", 24, 164, theme);
        self.button(
            Control::ClockLocal.rect(),
            "Local",
            params.clock_reference == ClockReference::Local,
            theme,
        );
        self.button(
            Control::ClockPtp.rect(),
            "PTP",
            params.clock_reference == ClockReference::Ptp,
            theme,
        );
        proof {
            assert(drawn(self.ops@) =~= before + clock_choice(self.surface, params, theme));
        }
    }

    fn domain_number(&mut self, params: StreamParameters, theme: Theme)
        ensures
            final(self).surface == old(self).surface,
            drawn(final(self).ops@) == drawn(old(self).ops@) + domain_number(
                old(self).surface,
                params,
                theme,
            ),
    {
        let ghost before = drawn(self.ops@);
        self.label("PTP Domain", 236, 164, theme);
        self.stepper(
            Control::PtpMinus,
            Control::PtpValue,
            Control::PtpPlus,
            params.ptp_domain as u64,
            params.clock_reference == ClockReference::Ptp,
            theme,
        );
        proof {
            assert(drawn(self.ops@) =~= before + domain_number(self.surface, params, theme));
        }
    }

    fn stream_numbers(&mut self, params: StreamParameters, theme: Theme)
        ensures
            final(self).surface == old(self).surface,
            drawn(final(self).ops@) == drawn(old(self).ops@) + stream_numbers(
                old(self).surface,
                params,
                theme,
            ),
    {
        let ghost before = drawn(self.ops@);
        self.label("Channels", 24, 214, theme);
        self.stepper(
            Control::ChannelsMinus,
            Control::ChannelsValue,
            Control::ChannelsPlus,
            params.channels as u64,
            true,
            theme,
        );
        self.label("Port", 214, 214, theme);
        self.stepper(
            Control::PortMinus,
            Control::PortValue,
            Control::PortPlus,
            params.port as u64,
            true,
            theme,
        );
        proof {
            assert(drawn(self.ops@) =~= before + stream_numbers(self.surface, params, theme));
        }
    }

    fn endpoint_words(&mut self, params: StreamParameters, theme: Theme)
        ensures
            final(self).surface == old(self).surface,
            drawn(final(self).ops@) == drawn(old(self).ops@) + endpoint_words(
                old(self).surface,
                params,
                theme,
            ),
    {
        let ghost before = drawn(self.ops@);
        self.label(endpoint_label_text(params), 24, 260, theme);
        self.text_line(
            endpoint_hint_text(params),
            Rect { x: 150, y: 260, w: 320, h: 18 },
            14,
            theme.secondary_text,
        );
        proof {
            assert(drawn(self.ops@) =~= before + endpoint_words(self.surface, params, theme));
        }
    }

    fn endpoint_numbers(&mut self, params: StreamParameters, theme: Theme)
        ensures
            final(self).surface == old(self).surface,
            drawn(final(self).ops@) == drawn(old(self).ops@) + endpoint_numbers(
                old(self).surface,
                params,
                theme,
            ),
    {
        let ghost before = drawn(self.ops@);
        self.octet(params, 0, theme);
        self.octet(params, 1, theme);
        self.octet(params, 2, theme);
        self.octet(params, 3, theme);
        proof {
            assert(drawn(self.ops@) =~= before + endpoint_numbers(self.surface, params, theme));
        }
    }

    fn octet(&mut self, params: StreamParameters, index: usize, theme: Theme)
        requires
            index < 4,
        ensures
            final(self).surface == old(self).surface,
            drawn(final(self).ops@) == drawn(old(self).ops@) + octet_stepper(
                old(self).surface,
                params,
                index,
                theme,
            ),
    {
        self.stepper(
            Control::IpMinus(index),
            Control::IpValue(index),
            Control::IpPlus(index),
            params.ip[index] as u64,
            true,
            theme,
        );
    }

    fn status_line(&mut self, text: &str, index: usize, theme: Theme)
        requires
            index < 4,
        ensures
            final(self).surface == old(self).surface,
            drawn(final(self).ops@) == drawn(old(self).ops@) + status_line(
                old(self).surface,
                text@,
                index as int,
                theme,
            ),
    {
        let panel: Rect = Control::RuntimePanel.rect();
        self.text_line(
            text,
            Rect { x: panel.x + 16, y: panel.y + 20 + 20 * index as i32, w: panel.w - 32, h: 18 },
            14,
            theme.text,
        );
    }

    fn foot(&mut self, status: &[String; 4], theme: Theme)
        ensures
            final(self).surface == old(self).surface,
            drawn(final(self).ops@) == drawn(old(self).ops@) + foot(
                old(self).surface,
                crate::status::strings(status@),
                theme,
            ),
    {
        let ghost before = drawn(self.ops@);
        self.button(Control::Apply.rect(), "Apply", false, theme);
        self.panel(Control::RuntimePanel.rect(), theme.panel_fill, theme.rule);
        self.text_line("Runtime", Rect { x: 24, y: 350, w: 120, h: 18 }, 14, theme.text);
        self.status_line(status[0].as_str(), 0, theme);
        self.status_line(status[1].as_str(), 1, theme);
        self.status_line(status[2].as_str(), 2, theme);
        self.status_line(status[3].as_str(), 3, theme);
        proof {
            assert(drawn(self.ops@) =~= before + foot(
                self.surface,
                crate::status::strings(status@),
                theme,
            ));
        }
    }
}

/// Draws the editor.
pub fn draw_editor(surface: Surface, params: StreamParameters, status: &[String; 4]) -> (ops: Vec<
    DrawOp,
>)
    ensures
        drawn(ops@) == scene(surface, params, crate::status::strings(status@)),
{
    let theme: Theme = theme(params.mode);
    let mut canvas = Canvas { surface, ops: Vec::new() };
    let ghost start = drawn(canvas.ops@);
    canvas.head(params, theme);
    proof {
        assert(start =~= Seq::<Drawn>::empty());
        assert(drawn(canvas.ops@) =~= head(surface, params, theme));
    }
    canvas.mode_choice(params, theme);
    canvas.transport_choice(params, theme);
    canvas.clock_choice(params, theme);
    canvas.domain_number(params, theme);
    canvas.stream_numbers(params, theme);
    canvas.endpoint_words(params, theme);
    canvas.endpoint_numbers(params, theme);
    canvas.foot(status, theme);
    canvas.ops
}

/// The text that is drawn, where it is one.
pub open spec fn drawn_text(op: Drawn) -> Option<Seq<char>> {
    match op {
        Drawn::Text { text, .. } => Some(text),
        _ => None,
    }
}

/// Whether the button that begins at a place of a scene is drawn at a control, with a text, and as
/// selected or not.
pub open spec fn has_button(
    ops: Seq<Drawn>,
    at: int,
    control: Control,
    text: Seq<char>,
    selected: bool,
    theme: Theme,
) -> bool {
    &&& ops[at] == (Drawn::Fill {
        rect: control.place(),
        color: if selected {
            theme.selected_fill
        } else {
            theme.field_fill
        },
    })
    &&& ops[at + 1] == (Drawn::Frame { rect: control.place(), color: theme.rule })
    &&& drawn_text(ops[at + 2]) == Some(text)
}

/// The head shows the background, the mode in its words, and whether the stream is armed.
pub proof fn law_the_head_shows_mode_and_arming(surface: Surface, params: StreamParameters, theme: Theme)
    ensures
        ({
            let ops = head(surface, params, theme);
            &&& ops.len() == 6
            &&& ops[0] == (Drawn::Fill { rect: Rect { x: 0, y: 0, w: 500, h: 492 }, color: theme.background })
            &&& drawn_text(ops[2]) == Some(
                if params.mode == StreamMode::Send {
                    "SEND"@
                } else {
                    "RECEIVE"@
                },
            )
            &&& has_button(ops, 3, Control::Arm, "ARM"@, params.enabled, theme)
        }),
{
}

/// Of the two choices of the mode, exactly the one that is set stands out.
pub proof fn law_the_set_mode_stands_out(surface: Surface, params: StreamParameters, theme: Theme)
    ensures
        ({
            let ops = mode_choice(surface, params, theme);
            &&& ops.len() == 7
            &&& drawn_text(ops[0]) == Some("Mode"@)
            &&& has_button(ops, 1, Control::ModeSend, "Send"@, params.mode == StreamMode::Send, theme)
            &&& has_button(ops, 4, Control::ModeReceive, "Receive"@, params.mode == StreamMode::Receive, theme)
        }),
{
}

/// Of the two choices of the transport, exactly the one that is set stands out.
pub proof fn law_the_set_transport_stands_out(surface: Surface, params: StreamParameters, theme: Theme)
    ensures
        ({
            let ops = transport_choice(surface, params, theme);
            &&& ops.len() == 7
            &&& drawn_text(ops[0]) == Some("Transport"@)
            &&& has_button(ops, 1, Control::TransportUnicast, "Unicast"@, params.transport == StreamTransport::Unicast, theme)
            &&& has_button(ops, 4, Control::TransportMulticast, "Multicast"@, params.transport == StreamTransport::Multicast, theme)
        }),
{
}

/// Of the two choices of the clock, exactly the one that is set stands out.
pub proof fn law_the_set_clock_stands_out(surface: Surface, params: StreamParameters, theme: Theme)
    ensures
        ({
            let ops = clock_choice(surface, params, theme);
            &&& ops.len() == 7
            &&& drawn_text(ops[0]) == Some("Clock"@)
            &&& has_button(ops, 1, Control::ClockLocal, "Local"@, params.clock_reference == ClockReference::Local, theme)
            &&& has_button(ops, 4, Control::ClockPtp, "PTP"@, params.clock_reference == ClockReference::Ptp, theme)
        }),
{
}

/// Whether the field that begins at a place of a scene shows a text between its two buttons.
pub open spec fn has_field(
    ops: Seq<Drawn>,
    at: int,
    minus: Control,
    value: Control,
    plus: Control,
    text: Seq<char>,
) -> bool {
    &&& ops[at] matches Drawn::Fill { rect, .. } && rect == minus.place()
    &&& drawn_text(ops[at + 2]) == Some("-"@)
    &&& ops[at + 3] matches Drawn::Fill { rect, .. } && rect == value.place()
    &&& drawn_text(ops[at + 5]) == Some(text)
    &&& ops[at + 6] matches Drawn::Fill { rect, .. } && rect == plus.place()
    &&& drawn_text(ops[at + 8]) == Some("+"@)
}

/// The clock domain stands in its field.
pub proof fn law_the_domain_is_shown(surface: Surface, params: StreamParameters, theme: Theme)
    ensures
        ({
            let ops = domain_number(surface, params, theme);
            &&& ops.len() == 10
            &&& drawn_text(ops[0]) == Some("PTP Domain"@)
            &&& has_field(
                ops,
                1,
                Control::PtpMinus,
                Control::PtpValue,
                Control::PtpPlus,
                crate::text::decimal(params.ptp_domain as nat),
            )
        }),
{
}

/// The channels and the port stand in their fields.
pub proof fn law_channels_and_port_are_shown(surface: Surface, params: StreamParameters, theme: Theme)
    ensures
        ({
            let ops = stream_numbers(surface, params, theme);
            &&& ops.len() == 20
            &&& drawn_text(ops[0]) == Some("Channels"@)
            &&& has_field(
                ops,
                1,
                Control::ChannelsMinus,
                Control::ChannelsValue,
                Control::ChannelsPlus,
                crate::text::decimal(params.channels as nat),
            )
            &&& drawn_text(ops[10]) == Some("Port"@)
            &&& has_field(
                ops,
                11,
                Control::PortMinus,
                Control::PortValue,
                Control::PortPlus,
                crate::text::decimal(params.port as nat),
            )
        }),
{
}

/// Each number of the address stands in its own field.
pub proof fn law_each_octet_is_shown(
    surface: Surface,
    params: StreamParameters,
    index: usize,
    theme: Theme,
)
    requires
        index < 4,
    ensures
        octet_stepper(surface, params, index, theme).len() == 9,
        has_field(
            octet_stepper(surface, params, index, theme),
            0,
            Control::IpMinus(index),
            Control::IpValue(index),
            Control::IpPlus(index),
            crate::text::decimal(params.ip@[index as int] as nat),
        ),
        endpoint_numbers(surface, params, theme).len() == 36,
        endpoint_numbers(surface, params, theme).subrange(9 * index, 9 * index + 9)
            == octet_stepper(surface, params, index, theme),
{
    let first = octet_stepper(surface, params, 0, theme);
    let second = octet_stepper(surface, params, 1, theme);
    let third = octet_stepper(surface, params, 2, theme);
    let fourth = octet_stepper(surface, params, 3, theme);
    lemma_octet_stepper(surface, params, 0, theme);
    lemma_octet_stepper(surface, params, 1, theme);
    lemma_octet_stepper(surface, params, 2, theme);
    lemma_octet_stepper(surface, params, 3, theme);
    lemma_octet_stepper(surface, params, index, theme);
    let all = endpoint_numbers(surface, params, theme);
    lemma_four_parts(first, second, third, fourth);
    assert(all == first + second + third + fourth);
}

proof fn lemma_octet_stepper(
    surface: Surface,
    params: StreamParameters,
    index: usize,
    theme: Theme,
)
    ensures
        octet_stepper(surface, params, index, theme).len() == 9,
{
}

/// Four parts of nine stand one behind the other.
proof fn lemma_four_parts(
    first: Seq<Drawn>,
    second: Seq<Drawn>,
    third: Seq<Drawn>,
    fourth: Seq<Drawn>,
)
    requires
        first.len() == 9,
        second.len() == 9,
        third.len() == 9,
        fourth.len() == 9,
    ensures
        (first + second + third + fourth).subrange(0, 9) == first,
        (first + second + third + fourth).subrange(9, 18) == second,
        (first + second + third + fourth).subrange(18, 27) == third,
        (first + second + third + fourth).subrange(27, 36) == fourth,
{
    let all = first + second + third + fourth;
    assert(all.subrange(0, 9) =~= first);
    assert(all.subrange(9, 18) =~= second);
    assert(all.subrange(18, 27) =~= third);
    assert(all.subrange(27, 36) =~= fourth);
}

/// The foot shows the button that applies the stream, and the four lines of the status in order.
pub proof fn law_the_foot_shows_the_status(surface: Surface, status: Seq<Seq<char>>, theme: Theme)
    ensures
        ({
            let ops = foot(surface, status, theme);
            &&& ops.len() == 10
            &&& has_button(ops, 0, Control::Apply, "Apply"@, false, theme)
            &&& drawn_text(ops[6]) == Some(status[0])
            &&& drawn_text(ops[7]) == Some(status[1])
            &&& drawn_text(ops[8]) == Some(status[2])
            &&& drawn_text(ops[9]) == Some(status[3])
        }),
{
}

/// The editor is its parts, from its head to its foot, each once, in the colours of its mode.
pub proof fn law_the_editor_is_its_parts(
    surface: Surface,
    params: StreamParameters,
    status: Seq<Seq<char>>,
)
    ensures
        ({
            let ops = scene(surface, params, status);
            let theme = theme_of(params.mode);
            &&& ops.len() == 105
            &&& ops.subrange(0, 6) == head(surface, params, theme)
            &&& ops.subrange(6, 13) == mode_choice(surface, params, theme)
            &&& ops.subrange(13, 20) == transport_choice(surface, params, theme)
            &&& ops.subrange(20, 27) == clock_choice(surface, params, theme)
            &&& ops.subrange(27, 37) == domain_number(surface, params, theme)
            &&& ops.subrange(37, 57) == stream_numbers(surface, params, theme)
            &&& ops.subrange(57, 59) == endpoint_words(surface, params, theme)
            &&& ops.subrange(59, 95) == endpoint_numbers(surface, params, theme)
            &&& ops.subrange(95, 105) == foot(surface, status, theme)
        }),
{
    let theme = theme_of(params.mode);
    law_the_head_shows_mode_and_arming(surface, params, theme);
    law_the_set_mode_stands_out(surface, params, theme);
    law_the_set_transport_stands_out(surface, params, theme);
    law_the_set_clock_stands_out(surface, params, theme);
    law_the_domain_is_shown(surface, params, theme);
    law_channels_and_port_are_shown(surface, params, theme);
    law_the_address_is_named(surface, params, theme);
    law_each_octet_is_shown(surface, params, 0, theme);
    law_the_foot_shows_the_status(surface, status, theme);
    lemma_nine_parts(
        head(surface, params, theme),
        mode_choice(surface, params, theme),
        transport_choice(surface, params, theme),
        clock_choice(surface, params, theme),
        domain_number(surface, params, theme),
        stream_numbers(surface, params, theme),
        endpoint_words(surface, params, theme),
        endpoint_numbers(surface, params, theme),
        foot(surface, status, theme),
    );
}

/// The parts of the editor stand one behind the other.
proof fn lemma_nine_parts(
    a: Seq<Drawn>,
    b: Seq<Drawn>,
    c: Seq<Drawn>,
    d: Seq<Drawn>,
    e: Seq<Drawn>,
    f: Seq<Drawn>,
    g: Seq<Drawn>,
    h: Seq<Drawn>,
    i: Seq<Drawn>,
)
    requires
        a.len() == 6,
        b.len() == 7,
        c.len() == 7,
        d.len() == 7,
        e.len() == 10,
        f.len() == 20,
        g.len() == 2,
        h.len() == 36,
        i.len() == 10,
    ensures
        ({
            let all = a + b + c + d + e + f + g + h + i;
            &&& all.len() == 105
            &&& all.subrange(0, 6) == a
            &&& all.subrange(6, 13) == b
            &&& all.subrange(13, 20) == c
            &&& all.subrange(20, 27) == d
            &&& all.subrange(27, 37) == e
            &&& all.subrange(37, 57) == f
            &&& all.subrange(57, 59) == g
            &&& all.subrange(59, 95) == h
            &&& all.subrange(95, 105) == i
        }),
{
    let all = a + b + c + d + e + f + g + h + i;
    assert(all.subrange(0, 6) =~= a);
    assert(all.subrange(6, 13) =~= b);
    assert(all.subrange(13, 20) =~= c);
    assert(all.subrange(20, 27) =~= d);
    assert(all.subrange(27, 37) =~= e);
    assert(all.subrange(37, 57) =~= f);
    assert(all.subrange(57, 59) =~= g);
    assert(all.subrange(59, 95) =~= h);
    assert(all.subrange(95, 105) =~= i);
}

/// The words of the address stand above it.
pub proof fn law_the_address_is_named(surface: Surface, params: StreamParameters, theme: Theme)
    ensures
        ({
            let ops = endpoint_words(surface, params, theme);
            &&& ops.len() == 2
            &&& drawn_text(ops[0]) == Some(endpoint_title(params))
            &&& drawn_text(ops[1]) == Some(endpoint_hint(params))
        }),
{
}

/// What the address is called, and what it is for, go by the mode and the transport.
pub proof fn law_addresses_are_named_for_what_they_are(params: StreamParameters)
    ensures
        params.transport == StreamTransport::Multicast ==> endpoint_title(params) == "Group IP"@,
        params.transport == StreamTransport::Unicast && params.mode == StreamMode::Send
            ==> endpoint_title(params) == "Destination IP"@ && endpoint_hint(params)
            == "Send directly to one host"@,
        params.transport == StreamTransport::Unicast && params.mode == StreamMode::Receive
            ==> endpoint_title(params) == "Expected Source"@ && endpoint_hint(params)
            == "0.0.0.0 accepts any sender on this port"@,
        params.transport == StreamTransport::Multicast && params.mode == StreamMode::Send
            ==> endpoint_hint(params) == "Publish once for many downstream receivers"@,
        params.transport == StreamTransport::Multicast && params.mode == StreamMode::Receive
            ==> endpoint_hint(params) == "Join this multicast group on the local interface"@,
{
}

/// The text of a button lies in it: in the middle of its box, or from its left edge on at its middle.
pub proof fn law_texts_lie_in_their_boxes(surface: Surface, rect: Rect)
    requires
        0 <= rect.x <= 500,
        0 <= rect.y <= 492,
        16 <= rect.w <= 500,
        14 <= rect.h <= 500,
    ensures
        ({
            let at = boxed_place(surface, rect);
            &&& rect.x <= at.x < rect.x + rect.w
            &&& rect.y <= at.y < rect.y + rect.h
            &&& surface == Surface::Win32 ==> at.w == rect.w && at.h == rect.h
            &&& surface == Surface::X11 ==> at.w == 0 && at.h == 0
        }),
{
}

/// A clock domain that has no effect is dimmed.
pub proof fn law_a_domain_without_effect_is_dimmed(
    surface: Surface,
    params: StreamParameters,
    theme: Theme,
)
    ensures
        ({
            let op = domain_number(surface, params, theme)[6];
            op matches Drawn::Text { color, .. } && color == (if params.clock_reference
                == ClockReference::Ptp {
                theme.text
            } else {
                theme.secondary_text
            })
        }),
{
}

} // verus!
