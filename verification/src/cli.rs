//! The command line of the standalone program.

use crate::lines::{is_one_of, to_ascii_lowercase};
use crate::stream::{
    ClockReference, StreamMode, StreamParameters, StreamTransport, MAX_CHANNELS,
};
use crate::text::{chars_of, parse_ipv4, parse_number, NumberError};
use vstd::prelude::*;
use vstd::string::*;

verus! {

/// What the program is to do.
#[derive(Clone, Copy, Debug, PartialEq, Eq, Structural)]
pub enum Command {
    Run,
    Ui,
    Devices,
    Help,
}

/// How the program was set up. A duration is in seconds.
#[derive(Clone, Debug)]
pub struct AppConfig {
    pub command: Command,
    pub mode: StreamMode,
    pub transport: StreamTransport,
    pub channels: u8,
    pub port: u16,
    pub ip: [u8; 4],
    pub clock_reference: ClockReference,
    pub ptp_domain: u8,
    pub sample_rate_hz: u32,
    pub input_device: Option<String>,
    pub output_device: Option<String>,
    pub duration: Option<u64>,
}

/// How the program was set up.
#[verifier::ext_equal]
pub struct Setup {
    pub command: Command,
    pub mode: StreamMode,
    pub transport: StreamTransport,
    pub channels: u8,
    pub port: u16,
    pub ip: [u8; 4],
    pub clock_reference: ClockReference,
    pub ptp_domain: u8,
    pub sample_rate_hz: u32,
    pub input_device: Option<Seq<char>>,
    pub output_device: Option<Seq<char>>,
    pub duration: Option<u64>,
}

/// What a text holds, where there is one.
pub open spec fn optional_text(text: Option<String>) -> Option<Seq<char>> {
    match text {
        None => None,
        Some(t) => Some(t@),
    }
}

impl View for AppConfig {
    type V = Setup;

    open spec fn view(&self) -> Setup {
        Setup {
            command: self.command,
            mode: self.mode,
            transport: self.transport,
            channels: self.channels,
            port: self.port,
            ip: self.ip,
            clock_reference: self.clock_reference,
            ptp_domain: self.ptp_domain,
            sample_rate_hz: self.sample_rate_hz,
            input_device: optional_text(self.input_device),
            output_device: optional_text(self.output_device),
            duration: self.duration,
        }
    }
}

impl Setup {
    /// Without arguments: a receiver of two channels at 48 kHz, on port 5004.
    pub open spec fn usual() -> Setup {
        Setup {
            command: Command::Run,
            mode: StreamMode::Receive,
            transport: StreamTransport::Unicast,
            channels: 2,
            port: 5004,
            ip: [127, 0, 0, 1],
            clock_reference: ClockReference::Local,
            ptp_domain: 0,
            sample_rate_hz: 48_000,
            input_device: None,
            output_device: None,
            duration: None,
        }
    }

    /// The stream that is set up.
    pub open spec fn stream(self) -> StreamParameters {
        StreamParameters {
            enabled: true,
            mode: self.mode,
            transport: self.transport,
            channels: self.channels,
            port: self.port,
            ip: self.ip,
            clock_reference: self.clock_reference,
            ptp_domain: self.ptp_domain,
        }
    }
}

impl Default for AppConfig {
    fn default() -> (config: Self)
        ensures
            config@ == Setup::usual(),
    {
        AppConfig {
            command: Command::Run,
            mode: StreamMode::Receive,
            transport: StreamTransport::Unicast,
            channels: 2,
            port: 5004,
            ip: [127, 0, 0, 1],
            clock_reference: ClockReference::Local,
            ptp_domain: 0,
            sample_rate_hz: 48_000,
            input_device: None,
            output_device: None,
            duration: None,
        }
    }
}

impl AppConfig {
    /// The stream that is set up.
    pub fn stream_parameters(&self) -> (params: StreamParameters)
        ensures
            params == self@.stream(),
    {
        StreamParameters {
            enabled: true,
            mode: self.mode,
            transport: self.transport,
            channels: self.channels,
            port: self.port,
            ip: self.ip,
            clock_reference: self.clock_reference,
            ptp_domain: self.ptp_domain,
        }
    }
}

/// What is wrong with a command line.
pub enum CliError {
    UnknownArgument(String),
    MissingValue(&'static str),
    InvalidMode(String),
    InvalidNumber(NumberError),
    InvalidAddress,
}

/// What is wrong with a command line.
pub enum Fault {
    UnknownArgument(Seq<char>),
    MissingValue(Seq<char>),
    InvalidMode(Seq<char>),
    InvalidNumber(NumberError),
    InvalidAddress,
}

impl View for CliError {
    type V = Fault;

    open spec fn view(&self) -> Fault {
        match *self {
            CliError::UnknownArgument(argument) => Fault::UnknownArgument(argument@),
            CliError::MissingValue(flag) => Fault::MissingValue(flag@),
            CliError::InvalidMode(value) => Fault::InvalidMode(value@),
            CliError::InvalidNumber(error) => Fault::InvalidNumber(error),
            CliError::InvalidAddress => Fault::InvalidAddress,
        }
    }
}

impl Fault {
    /// The fault in words.
    pub open spec fn words(self) -> Seq<char> {
        match self {
            Fault::UnknownArgument(argument) => "unknown argument: "@ + argument,
            Fault::MissingValue(flag) => "missing value for "@ + flag,
            Fault::InvalidMode(value) => "invalid mode: "@ + value,
            Fault::InvalidNumber(error) => error.words(),
            Fault::InvalidAddress => "invalid IPv4 address syntax"@,
        }
    }
}

impl CliError {
    /// The fault in words.
    pub fn message(&self) -> (text: String)
        ensures
            text@ == self@.words(),
    {
        match self {
            CliError::UnknownArgument(argument) => {
                let mut text: String = "unknown argument: ".to_owned();
                text.append(argument.as_str());
                text
            },
            CliError::MissingValue(flag) => {
                let mut text: String = "missing value for ".to_owned();
                text.append(flag);
                text
            },
            CliError::InvalidMode(value) => {
                let mut text: String = "invalid mode: ".to_owned();
                text.append(value.as_str());
                text
            },
            CliError::InvalidNumber(error) => error.message().to_owned(),
            CliError::InvalidAddress => "invalid IPv4 address syntax".to_owned(),
        }
    }
}

/// What an argument stands for.
#[derive(Clone, Copy, Debug, PartialEq, Eq, Structural)]
pub enum Flag {
    Help,
    Ui,
    Devices,
    Send,
    Receive,
    Multicast,
    Unicast,
    Ptp,
    LocalClock,
    Mode,
    Channels,
    Port,
    Ip,
    PtpDomain,
    SampleRate,
    Input,
    Output,
    Duration,
}

/// The spellings of a flag.
pub open spec fn spellings(flag: Flag) -> Seq<Seq<char>> {
    match flag {
        Flag::Help => seq!["-h"@, "--help"@, "help"@],
        Flag::Ui => seq!["ui"@, "--ui"@],
        Flag::Devices => seq!["devices"@, "--devices"@, "--list-devices"@],
        Flag::Send => seq!["send"@],
        Flag::Receive => seq!["receive"@, "recv"@],
        Flag::Multicast => seq!["--multicast"@],
        Flag::Unicast => seq!["--unicast"@],
        Flag::Ptp => seq!["--ptp"@],
        Flag::LocalClock => seq!["--local-clock"@],
        Flag::Mode => seq!["--mode"@],
        Flag::Channels => seq!["--channels"@, "-c"@],
        Flag::Port => seq!["--port"@, "-p"@],
        Flag::Ip => seq!["--ip"@],
        Flag::PtpDomain => seq!["--ptp-domain"@],
        Flag::SampleRate => seq!["--sample-rate"@, "-r"@],
        Flag::Input => seq!["--input"@],
        Flag::Output => seq!["--output"@],
        Flag::Duration => seq!["--duration"@],
    }
}

/// The flags, in the order in which they are looked for.
pub open spec fn flags() -> Seq<Flag> {
    seq![
        Flag::Help,
        Flag::Ui,
        Flag::Devices,
        Flag::Send,
        Flag::Receive,
        Flag::Multicast,
        Flag::Unicast,
        Flag::Ptp,
        Flag::LocalClock,
        Flag::Mode,
        Flag::Channels,
        Flag::Port,
        Flag::Ip,
        Flag::PtpDomain,
        Flag::SampleRate,
        Flag::Input,
        Flag::Output,
        Flag::Duration,
    ]
}

/// The flag that an argument is a spelling of, from a place of the list on.
pub open spec fn flag_from(argument: Seq<char>, from: int) -> Option<Flag>
    decreases flags().len() - from,
{
    if from < 0 || from >= flags().len() {
        None
    } else if spellings(flags()[from]).contains(argument) {
        Some(flags()[from])
    } else {
        flag_from(argument, from + 1)
    }
}

/// The flag that an argument is a spelling of.
pub open spec fn flag_of(argument: Seq<char>) -> Option<Flag> {
    flag_from(argument, 0)
}

/// Whether an argument is a spelling of a flag.
fn is_spelling(argument: &[char], flag: Flag) -> (yes: bool)
    ensures
        yes == spellings(flag).contains(argument@),
{
    match flag {
        Flag::Help => is_one_of_three(argument, "-h", "--help", "help"),
        Flag::Ui => is_one_of_two(argument, "ui", "--ui"),
        Flag::Devices => is_one_of_three(argument, "devices", "--devices", "--list-devices"),
        Flag::Send => is_word(argument, "send"),
        Flag::Receive => is_one_of_two(argument, "receive", "recv"),
        Flag::Multicast => is_word(argument, "--multicast"),
        Flag::Unicast => is_word(argument, "--unicast"),
        Flag::Ptp => is_word(argument, "--ptp"),
        Flag::LocalClock => is_word(argument, "--local-clock"),
        Flag::Mode => is_word(argument, "--mode"),
        Flag::Channels => is_one_of_two(argument, "--channels", "-c"),
        Flag::Port => is_one_of_two(argument, "--port", "-p"),
        Flag::Ip => is_word(argument, "--ip"),
        Flag::PtpDomain => is_word(argument, "--ptp-domain"),
        Flag::SampleRate => is_one_of_two(argument, "--sample-rate", "-r"),
        Flag::Input => is_word(argument, "--input"),
        Flag::Output => is_word(argument, "--output"),
        Flag::Duration => is_word(argument, "--duration"),
    }
}

fn is_word(argument: &[char], word: &str) -> (yes: bool)
    ensures
        yes == seq![word@].contains(argument@),
{
    let list: [&str; 1] = [word];
    proof {
        assert(crate::lines::words(list@) =~= seq![word@]);
    }
    is_one_of(argument, list.as_slice())
}

fn is_one_of_two(argument: &[char], first: &str, second: &str) -> (yes: bool)
    ensures
        yes == seq![first@, second@].contains(argument@),
{
    let list: [&str; 2] = [first, second];
    proof {
        assert(crate::lines::words(list@) =~= seq![first@, second@]);
    }
    is_one_of(argument, list.as_slice())
}

fn is_one_of_three(argument: &[char], first: &str, second: &str, third: &str) -> (yes: bool)
    ensures
        yes == seq![first@, second@, third@].contains(argument@),
{
    let list: [&str; 3] = [first, second, third];
    proof {
        assert(crate::lines::words(list@) =~= seq![first@, second@, third@]);
    }
    is_one_of(argument, list.as_slice())
}

/// Finds the flag that an argument is a spelling of.
fn find_flag(argument: &[char]) -> (flag: Option<Flag>)
    ensures
        flag == flag_of(argument@),
{
    let list: [Flag; 18] = [
        Flag::Help,
        Flag::Ui,
        Flag::Devices,
        Flag::Send,
        Flag::Receive,
        Flag::Multicast,
        Flag::Unicast,
        Flag::Ptp,
        Flag::LocalClock,
        Flag::Mode,
        Flag::Channels,
        Flag::Port,
        Flag::Ip,
        Flag::PtpDomain,
        Flag::SampleRate,
        Flag::Input,
        Flag::Output,
        Flag::Duration,
    ];
    proof {
        assert(list@ =~= flags());
    }
    let mut index: usize = 0;
    while index < 18
        invariant
            index <= 18,
            list@ == flags(),
            flag_from(argument@, index as int) == flag_of(argument@),
        decreases 18 - index,
    {
        if is_spelling(argument, list[index]) {
            return Some(list[index]);
        }
        index = index + 1;
    }
    None
}

/// Whether a flag is followed by a value.
pub open spec fn takes_value(flag: Flag) -> bool {
    match flag {
        Flag::Mode
        | Flag::Channels
        | Flag::Port
        | Flag::Ip
        | Flag::PtpDomain
        | Flag::SampleRate
        | Flag::Input
        | Flag::Output
        | Flag::Duration => true,
        _ => false,
    }
}

/// How a flag that is followed by a value is called.
pub open spec fn flag_name(flag: Flag) -> Seq<char> {
    spellings(flag)[0]
}

/// The setup with a flag that has no value.
pub open spec fn with_flag(setup: Setup, flag: Flag) -> Setup {
    match flag {
        Flag::Help => Setup { command: Command::Help, ..setup },
        Flag::Ui => Setup { command: Command::Ui, ..setup },
        Flag::Devices => Setup { command: Command::Devices, ..setup },
        Flag::Send => Setup { mode: StreamMode::Send, ..setup },
        Flag::Receive => Setup { mode: StreamMode::Receive, ..setup },
        Flag::Multicast => Setup { transport: StreamTransport::Multicast, ..setup },
        Flag::Unicast => Setup { transport: StreamTransport::Unicast, ..setup },
        Flag::Ptp => Setup { clock_reference: ClockReference::Ptp, ..setup },
        Flag::LocalClock => Setup { clock_reference: ClockReference::Local, ..setup },
        _ => setup,
    }
}

/// The mode that a word stands for, in whatever case.
pub open spec fn mode_of(value: Seq<char>) -> Result<StreamMode, Fault> {
    let word = crate::lines::lowered(value);
    if word == "send"@ {
        Ok(StreamMode::Send)
    } else if word == "receive"@ || word == "recv"@ {
        Ok(StreamMode::Receive)
    } else {
        Err(Fault::InvalidMode(value))
    }
}

/// The address that a text stands for.
pub open spec fn address_of(value: Seq<char>) -> Result<[u8; 4], Fault> {
    if exists|ip: [u8; 4]| value == #[trigger] crate::text::dotted(ip) {
        Ok(choose|ip: [u8; 4]| value == #[trigger] crate::text::dotted(ip))
    } else {
        Err(Fault::InvalidAddress)
    }
}

/// The number that a text stands for.
pub open spec fn number_in(value: Seq<char>, max: nat) -> Result<nat, Fault> {
    match crate::text::number_of(value, max) {
        Ok(number) => Ok(number),
        Err(error) => Err(Fault::InvalidNumber(error)),
    }
}

/// The setup with a flag and its value.
pub open spec fn with_value(setup: Setup, flag: Flag, value: Seq<char>) -> Result<Setup, Fault> {
    match flag {
        Flag::Mode => match mode_of(value) {
            Ok(mode) => Ok(Setup { mode, ..setup }),
            Err(fault) => Err(fault),
        },
        Flag::Channels => match number_in(value, u8::MAX as nat) {
            Ok(number) => Ok(
                Setup { channels: crate::state::channels_in_range(number as u8), ..setup },
            ),
            Err(fault) => Err(fault),
        },
        Flag::Port => match number_in(value, u16::MAX as nat) {
            Ok(number) => Ok(Setup { port: crate::state::port_in_range(number as u16), ..setup }),
            Err(fault) => Err(fault),
        },
        Flag::Ip => match address_of(value) {
            Ok(ip) => Ok(Setup { ip, ..setup }),
            Err(fault) => Err(fault),
        },
        Flag::PtpDomain => match number_in(value, u8::MAX as nat) {
            Ok(number) => Ok(
                Setup { ptp_domain: crate::state::domain_in_range(number as u8), ..setup },
            ),
            Err(fault) => Err(fault),
        },
        Flag::SampleRate => match number_in(value, u32::MAX as nat) {
            Ok(number) => Ok(Setup { sample_rate_hz: number as u32, ..setup }),
            Err(fault) => Err(fault),
        },
        Flag::Input => Ok(Setup { input_device: Some(value), ..setup }),
        Flag::Output => Ok(Setup { output_device: Some(value), ..setup }),
        Flag::Duration => match number_in(value, u64::MAX as nat) {
            Ok(number) => Ok(Setup { duration: Some(number as u64), ..setup }),
            Err(fault) => Err(fault),
        },
        _ => Ok(setup),
    }
}

/// The setup by the arguments from a place on, or the first fault in them.
pub open spec fn set_up_from(arguments: Seq<Seq<char>>, at: int, setup: Setup) -> Result<Setup, Fault>
    decreases arguments.len() - at,
{
    if at < 0 || at >= arguments.len() {
        Ok(setup)
    } else {
        match flag_of(arguments[at]) {
            None => Err(Fault::UnknownArgument(arguments[at])),
            Some(flag) => if !takes_value(flag) {
                set_up_from(arguments, at + 1, with_flag(setup, flag))
            } else if at + 1 >= arguments.len() {
                Err(Fault::MissingValue(flag_name(flag)))
            } else {
                match with_value(setup, flag, arguments[at + 1]) {
                    Ok(next) => set_up_from(arguments, at + 2, next),
                    Err(fault) => Err(fault),
                }
            },
        }
    }
}

/// The setup by a command line.
pub open spec fn set_up(arguments: Seq<Seq<char>>) -> Result<Setup, Fault> {
    set_up_from(arguments, 0, Setup::usual())
}

/// Reads a mode.
pub fn parse_mode(value: &str) -> (mode: Result<StreamMode, CliError>)
    ensures
        match mode {
            Ok(m) => mode_of(value@) == Ok::<StreamMode, Fault>(m),
            Err(error) => mode_of(value@) == Err::<StreamMode, Fault>(error@),
        },
{
    let chars: Vec<char> = chars_of(value);
    let word: Vec<char> = to_ascii_lowercase(chars.as_slice());
    proof {
        assert(seq!["send"@][0] == "send"@);
        assert(seq!["receive"@, "recv"@][0] == "receive"@);
        assert(seq!["receive"@, "recv"@][1] == "recv"@);
    }
    if is_word(word.as_slice(), "send") {
        Ok(StreamMode::Send)
    } else if is_one_of_two(word.as_slice(), "receive", "recv") {
        Ok(StreamMode::Receive)
    } else {
        Err(CliError::InvalidMode(value.to_owned()))
    }
}

/// Reads a number that is no larger than `max`.
fn parse_value(value: &str, max: u64) -> (number: Result<u64, CliError>)
    ensures
        match number {
            Ok(n) => number_in(value@, max as nat) == Ok::<nat, Fault>(n as nat) && n <= max,
            Err(error) => number_in(value@, max as nat) == Err::<nat, Fault>(error@),
        },
{
    let chars: Vec<char> = chars_of(value);
    match parse_number(chars.as_slice(), max) {
        Ok(number) => Ok(number),
        Err(error) => Err(CliError::InvalidNumber(error)),
    }
}

/// Takes a flag that has no value.
fn apply_flag(config: &mut AppConfig, flag: Flag)
    ensures
        final(config)@ == with_flag(old(config)@, flag),
{
    match flag {
        Flag::Help => {
            config.command = Command::Help;
        },
        Flag::Ui => {
            config.command = Command::Ui;
        },
        Flag::Devices => {
            config.command = Command::Devices;
        },
        Flag::Send => {
            config.mode = StreamMode::Send;
        },
        Flag::Receive => {
            config.mode = StreamMode::Receive;
        },
        Flag::Multicast => {
            config.transport = StreamTransport::Multicast;
        },
        Flag::Unicast => {
            config.transport = StreamTransport::Unicast;
        },
        Flag::Ptp => {
            config.clock_reference = ClockReference::Ptp;
        },
        Flag::LocalClock => {
            config.clock_reference = ClockReference::Local;
        },
        _ => {},
    }
}

/// Takes a flag and its value.
fn apply_value(config: &mut AppConfig, flag: Flag, value: &str) -> (outcome: Result<(), CliError>)
    ensures
        match outcome {
            Ok(_) => with_value(old(config)@, flag, value@) == Ok::<Setup, Fault>(final(config)@),
            Err(error) => with_value(old(config)@, flag, value@) == Err::<Setup, Fault>(error@),
        },
{
    match flag {
        Flag::Mode => match parse_mode(value) {
            Err(error) => Err(error),
            Ok(mode) => {
                config.mode = mode;
                Ok(())
            },
        },
        Flag::Channels => match parse_value(value, u8::MAX as u64) {
            Err(error) => Err(error),
            Ok(number) => {
                config.channels = if number < 1 {
                    1
                } else if number > MAX_CHANNELS as u64 {
                    MAX_CHANNELS as u8
                } else {
                    number as u8
                };
                Ok(())
            },
        },
        Flag::Port => match parse_value(value, u16::MAX as u64) {
            Err(error) => Err(error),
            Ok(number) => {
                config.port = if number < 1 {
                    1
                } else {
                    number as u16
                };
                Ok(())
            },
        },
        Flag::Ip => match parse_ipv4(value) {
            None => Err(CliError::InvalidAddress),
            Some(ip) => {
                proof {
                    let found = choose|other: [u8; 4]|
                        value@ == #[trigger] crate::text::dotted(other);
                    crate::text::law_dotted_is_injective(ip, found);
                }
                config.ip = ip;
                Ok(())
            },
        },
        Flag::PtpDomain => match parse_value(value, u8::MAX as u64) {
            Err(error) => Err(error),
            Ok(number) => {
                config.ptp_domain = if number > 127 {
                    127
                } else {
                    number as u8
                };
                Ok(())
            },
        },
        Flag::SampleRate => match parse_value(value, u32::MAX as u64) {
            Err(error) => Err(error),
            Ok(number) => {
                config.sample_rate_hz = number as u32;
                Ok(())
            },
        },
        Flag::Input => {
            config.input_device = Some(value.to_owned());
            Ok(())
        },
        Flag::Output => {
            config.output_device = Some(value.to_owned());
            Ok(())
        },
        Flag::Duration => match parse_value(value, u64::MAX) {
            Err(error) => Err(error),
            Ok(number) => {
                config.duration = Some(number);
                Ok(())
            },
        },
        _ => Ok(()),
    }
}

/// How a flag that is followed by a value is called.
fn name_of(flag: Flag) -> (name: &'static str)
    requires
        takes_value(flag),
    ensures
        name@ == flag_name(flag),
{
    match flag {
        Flag::Mode => "--mode",
        Flag::Channels => "--channels",
        Flag::Port => "--port",
        Flag::Ip => "--ip",
        Flag::PtpDomain => "--ptp-domain",
        Flag::SampleRate => "--sample-rate",
        Flag::Input => "--input",
        Flag::Output => "--output",
        _ => "--duration",
    }
}

/// Whether a flag is followed by a value.
fn wants_value(flag: Flag) -> (yes: bool)
    ensures
        yes == takes_value(flag),
{
    match flag {
        Flag::Mode
        | Flag::Channels
        | Flag::Port
        | Flag::Ip
        | Flag::PtpDomain
        | Flag::SampleRate
        | Flag::Input
        | Flag::Output
        | Flag::Duration => true,
        _ => false,
    }
}

/// Reads a command line, without the name of the program.
pub fn parse_args(arguments: &Vec<String>) -> (config: Result<AppConfig, CliError>)
    ensures
        match config {
            Ok(c) => set_up(crate::status::strings(arguments@)) == Ok::<Setup, Fault>(c@),
            Err(error) => set_up(crate::status::strings(arguments@)) == Err::<Setup, Fault>(error@),
        },
{
    let ghost all = crate::status::strings(arguments@);
    let mut config = AppConfig::default();
    let mut at: usize = 0;
    while at < arguments.len()
        invariant
            at <= arguments@.len(),
            all == crate::status::strings(arguments@),
            set_up_from(all, at as int, config@) == set_up(all),
        decreases arguments@.len() - at,
    {
        assert(all[at as int] == arguments@[at as int]@);
        let chars: Vec<char> = chars_of(arguments[at].as_str());
        let flag: Flag = match find_flag(chars.as_slice()) {
            None => {
                return Err(CliError::UnknownArgument(arguments[at].clone()));
            },
            Some(flag) => flag,
        };
        if !wants_value(flag) {
            apply_flag(&mut config, flag);
            at = at + 1;
        } else if at + 1 >= arguments.len() {
            return Err(CliError::MissingValue(name_of(flag)));
        } else {
            assert(all[at + 1] == arguments@[at + 1]@);
            match apply_value(&mut config, flag, arguments[at + 1].as_str()) {
                Err(error) => {
                    return Err(error);
                },
                Ok(_) => {},
            }
            at = at + 2;
        }
    }
    Ok(config)
}

/// Whatever the command line says, the stream that it sets up is one that can be saved and shown:
/// its channel count, port and clock domain are in range.
pub proof fn law_command_line_keeps_the_stream_in_range(arguments: Seq<Seq<char>>)
    ensures
        set_up(arguments) matches Ok(setup) ==> crate::state::is_normal(setup.stream()),
{
    lemma_in_range_from(arguments, 0, Setup::usual());
}

proof fn lemma_in_range_from(arguments: Seq<Seq<char>>, at: int, setup: Setup)
    requires
        crate::state::is_normal(setup.stream()),
    ensures
        set_up_from(arguments, at, setup) matches Ok(last) ==> crate::state::is_normal(
            last.stream(),
        ),
    decreases arguments.len() - at,
{
    if 0 <= at < arguments.len() {
        if let Some(flag) = flag_of(arguments[at]) {
            if !takes_value(flag) {
                lemma_in_range_from(arguments, at + 1, with_flag(setup, flag));
            } else if at + 1 < arguments.len() {
                if let Ok(next) = with_value(setup, flag, arguments[at + 1]) {
                    lemma_in_range_from(arguments, at + 2, next);
                }
            }
        }
    }
}

/// No two flags share a spelling.
#[verifier::spinoff_prover]
proof fn lemma_spellings_differ(word: Seq<char>, one: Flag, other: Flag)
    requires
        spellings(one).contains(word),
        spellings(other).contains(word),
    ensures
        one == other,
{
    reveal_strlit("-h");
    reveal_strlit("--help");
    reveal_strlit("help");
    reveal_strlit("ui");
    reveal_strlit("--ui");
    reveal_strlit("devices");
    reveal_strlit("--devices");
    reveal_strlit("--list-devices");
    reveal_strlit("send");
    reveal_strlit("receive");
    reveal_strlit("recv");
    reveal_strlit("--multicast");
    reveal_strlit("--unicast");
    reveal_strlit("--ptp");
    reveal_strlit("--local-clock");
    reveal_strlit("--mode");
    reveal_strlit("--channels");
    reveal_strlit("-c");
    reveal_strlit("--port");
    reveal_strlit("-p");
    reveal_strlit("--ip");
    reveal_strlit("--ptp-domain");
    reveal_strlit("--sample-rate");
    reveal_strlit("-r");
    reveal_strlit("--input");
    reveal_strlit("--output");
    reveal_strlit("--duration");
    assert("-h"@.len() == 2 && "-h"@[1] == 'h');
    assert("--help"@.len() == 6 && "--help"@[2] == 'h');
    assert("help"@.len() == 4 && "help"@[2] == 'l');
    assert("ui"@.len() == 2 && "ui"@[1] == 'i');
    assert("--ui"@.len() == 4 && "--ui"@[2] == 'u');
    assert("devices"@.len() == 7 && "devices"@[2] == 'v');
    assert("--devices"@.len() == 9 && "--devices"@[2] == 'd');
    assert("--list-devices"@.len() == 14 && "--list-devices"@[2] == 'l');
    assert("send"@.len() == 4 && "send"@[2] == 'n');
    assert("receive"@.len() == 7 && "receive"@[2] == 'c');
    assert("recv"@.len() == 4 && "recv"@[2] == 'c');
    assert("--multicast"@.len() == 11 && "--multicast"@[2] == 'm');
    assert("--unicast"@.len() == 9 && "--unicast"@[2] == 'u');
    assert("--ptp"@.len() == 5 && "--ptp"@[2] == 'p');
    assert("--local-clock"@.len() == 13 && "--local-clock"@[2] == 'l');
    assert("--mode"@.len() == 6 && "--mode"@[2] == 'm');
    assert("--channels"@.len() == 10 && "--channels"@[2] == 'c');
    assert("-c"@.len() == 2 && "-c"@[1] == 'c');
    assert("--port"@.len() == 6 && "--port"@[2] == 'p');
    assert("-p"@.len() == 2 && "-p"@[1] == 'p');
    assert("--ip"@.len() == 4 && "--ip"@[2] == 'i');
    assert("--ptp-domain"@.len() == 12 && "--ptp-domain"@[2] == 'p');
    assert("--sample-rate"@.len() == 13 && "--sample-rate"@[2] == 's');
    assert("-r"@.len() == 2 && "-r"@[1] == 'r');
    assert("--input"@.len() == 7 && "--input"@[2] == 'i');
    assert("--output"@.len() == 8 && "--output"@[2] == 'o');
    assert("--duration"@.len() == 10 && "--duration"@[2] == 'd');
}

/// A spelling is found to be that of its flag.
proof fn lemma_flag_is_found(word: Seq<char>, flag: Flag, from: int)
    requires
        spellings(flag).contains(word),
        0 <= from <= flags().len(),
        exists|k: int| from <= k < flags().len() && flags()[k] == flag,
    ensures
        flag_from(word, from) == Some(flag),
    decreases flags().len() - from,
{
    if spellings(flags()[from]).contains(word) {
        lemma_spellings_differ(word, flag, flags()[from]);
    } else {
        let k = choose|k: int| from <= k < flags().len() && flags()[k] == flag;
        assert(k != from);
        lemma_flag_is_found(word, flag, from + 1);
    }
}

/// Every flag is looked for.
proof fn lemma_flag_of_spelling(flag: Flag, index: int)
    requires
        0 <= index < spellings(flag).len(),
    ensures
        flag_of(spellings(flag)[index]) == Some(flag),
{
    let list = flags();
    let place: int = match flag {
        Flag::Help => 0,
        Flag::Ui => 1,
        Flag::Devices => 2,
        Flag::Send => 3,
        Flag::Receive => 4,
        Flag::Multicast => 5,
        Flag::Unicast => 6,
        Flag::Ptp => 7,
        Flag::LocalClock => 8,
        Flag::Mode => 9,
        Flag::Channels => 10,
        Flag::Port => 11,
        Flag::Ip => 12,
        Flag::PtpDomain => 13,
        Flag::SampleRate => 14,
        Flag::Input => 15,
        Flag::Output => 16,
        Flag::Duration => 17,
    };
    assert(list[place] == flag);
    lemma_flag_is_found(spellings(flag)[index], flag, 0);
}

/// A command line that is accepted is gone through before what follows it.
proof fn lemma_goes_on(
    arguments: Seq<Seq<char>>,
    more: Seq<Seq<char>>,
    at: int,
    from: Setup,
    setup: Setup,
)
    requires
        0 <= at <= arguments.len(),
        set_up_from(arguments, at, from) == Ok::<Setup, Fault>(setup),
    ensures
        set_up_from(arguments + more, at, from) == set_up_from(
            arguments + more,
            arguments.len() as int,
            setup,
        ),
    decreases arguments.len() - at,
{
    if at < arguments.len() {
        assert((arguments + more)[at] == arguments[at]);
        let flag = flag_of(arguments[at])->0;
        if !takes_value(flag) {
            lemma_goes_on(arguments, more, at + 1, with_flag(from, flag), setup);
        } else {
            assert((arguments + more)[at + 1] == arguments[at + 1]);
            let next = with_value(from, flag, arguments[at + 1])->Ok_0;
            lemma_goes_on(arguments, more, at + 2, next, setup);
        }
    }
}

/// A word without a value at the end of a command line.
proof fn lemma_word_is_taken(arguments: Seq<Seq<char>>, setup: Setup, flag: Flag, index: int)
    requires
        set_up(arguments) == Ok::<Setup, Fault>(setup),
        0 <= index < spellings(flag).len(),
        !takes_value(flag),
    ensures
        set_up(arguments.push(spellings(flag)[index])) == Ok::<Setup, Fault>(
            with_flag(setup, flag),
        ),
{
    let more = seq![spellings(flag)[index]];
    assert(arguments + more =~= arguments.push(spellings(flag)[index]));
    lemma_goes_on(arguments, more, 0, Setup::usual(), setup);
    lemma_flag_of_spelling(flag, index);
    reveal_with_fuel(set_up_from, 2);
}

/// A word whose value is missing at the end of a command line.
proof fn lemma_value_is_missed(arguments: Seq<Seq<char>>, setup: Setup, flag: Flag, index: int)
    requires
        set_up(arguments) == Ok::<Setup, Fault>(setup),
        0 <= index < spellings(flag).len(),
        takes_value(flag),
    ensures
        set_up(arguments.push(spellings(flag)[index])) == Err::<Setup, Fault>(
            Fault::MissingValue(spellings(flag)[0]),
        ),
{
    let more = seq![spellings(flag)[index]];
    assert(arguments + more =~= arguments.push(spellings(flag)[index]));
    lemma_goes_on(arguments, more, 0, Setup::usual(), setup);
    lemma_flag_of_spelling(flag, index);
}

/// A word and its value at the end of a command line.
proof fn lemma_value_is_taken(
    arguments: Seq<Seq<char>>,
    setup: Setup,
    flag: Flag,
    index: int,
    value: Seq<char>,
)
    requires
        set_up(arguments) == Ok::<Setup, Fault>(setup),
        0 <= index < spellings(flag).len(),
        takes_value(flag),
    ensures
        set_up(arguments + seq![spellings(flag)[index], value]) == with_value(setup, flag, value),
{
    let more = seq![spellings(flag)[index], value];
    lemma_goes_on(arguments, more, 0, Setup::usual(), setup);
    lemma_flag_of_spelling(flag, index);
    reveal_with_fuel(set_up_from, 2);
    assert((arguments + more)[arguments.len() as int] == more[0]);
    assert((arguments + more)[arguments.len() as int + 1] == more[1]);
}

/// Without arguments the program receives two channels at 48 kHz by unicast on port 5004, by the
/// local clock and the default devices, until it is stopped.
pub proof fn law_no_arguments_set_up_a_receiver()
    ensures
        set_up(Seq::empty()) matches Ok(setup) && {
            &&& setup.command == Command::Run
            &&& setup.mode == StreamMode::Receive
            &&& setup.transport == StreamTransport::Unicast
            &&& setup.channels == 2
            &&& setup.port == 5004
            &&& setup.ip@ == seq![127u8, 0u8, 0u8, 1u8]
            &&& setup.clock_reference == ClockReference::Local
            &&& setup.ptp_domain == 0
            &&& setup.sample_rate_hz == 48_000
            &&& setup.input_device is None
            &&& setup.output_device is None
            &&& setup.duration is None
        },
{
    assert(Setup::usual().ip@ =~= seq![127u8, 0u8, 0u8, 1u8]);
}

/// A word for a mode at the end of a command line decides, whatever comes before it: the mode is then the
/// one that it names, and all else stays as it was.
#[verifier::spinoff_prover]
pub proof fn law_the_last_mode_word_decides(arguments: Seq<Seq<char>>, setup: Setup)
    requires
        set_up(arguments) == Ok::<Setup, Fault>(setup),
    ensures
        set_up(arguments.push("send"@)) == Ok::<Setup, Fault>(
            Setup { mode: StreamMode::Send, ..setup },
        ),
        set_up(arguments.push("receive"@)) == Ok::<Setup, Fault>(
            Setup { mode: StreamMode::Receive, ..setup },
        ),
        set_up(arguments.push("recv"@)) == Ok::<Setup, Fault>(
            Setup { mode: StreamMode::Receive, ..setup },
        ),
{
    lemma_word_is_taken(arguments, setup, Flag::Send, 0);
    lemma_word_is_taken(arguments, setup, Flag::Receive, 0);
    lemma_word_is_taken(arguments, setup, Flag::Receive, 1);
}

/// So does a word for a transport.
#[verifier::spinoff_prover]
pub proof fn law_the_last_transport_word_decides(arguments: Seq<Seq<char>>, setup: Setup)
    requires
        set_up(arguments) == Ok::<Setup, Fault>(setup),
    ensures
        set_up(arguments.push("--multicast"@)) == Ok::<Setup, Fault>(
            Setup { transport: StreamTransport::Multicast, ..setup },
        ),
        set_up(arguments.push("--unicast"@)) == Ok::<Setup, Fault>(
            Setup { transport: StreamTransport::Unicast, ..setup },
        ),
{
    lemma_word_is_taken(arguments, setup, Flag::Multicast, 0);
    lemma_word_is_taken(arguments, setup, Flag::Unicast, 0);
}

/// So does a word for a clock.
#[verifier::spinoff_prover]
pub proof fn law_the_last_clock_word_decides(arguments: Seq<Seq<char>>, setup: Setup)
    requires
        set_up(arguments) == Ok::<Setup, Fault>(setup),
    ensures
        set_up(arguments.push("--ptp"@)) == Ok::<Setup, Fault>(
            Setup { clock_reference: ClockReference::Ptp, ..setup },
        ),
        set_up(arguments.push("--local-clock"@)) == Ok::<Setup, Fault>(
            Setup { clock_reference: ClockReference::Local, ..setup },
        ),
{
    lemma_word_is_taken(arguments, setup, Flag::Ptp, 0);
    lemma_word_is_taken(arguments, setup, Flag::LocalClock, 0);
}

/// So does a word for help.
#[verifier::spinoff_prover]
pub proof fn law_the_last_word_for_help_decides(arguments: Seq<Seq<char>>, setup: Setup)
    requires
        set_up(arguments) == Ok::<Setup, Fault>(setup),
    ensures
        set_up(arguments.push("-h"@)) == Ok::<Setup, Fault>(
            Setup { command: Command::Help, ..setup },
        ),
        set_up(arguments.push("--help"@)) == Ok::<Setup, Fault>(
            Setup { command: Command::Help, ..setup },
        ),
        set_up(arguments.push("help"@)) == Ok::<Setup, Fault>(
            Setup { command: Command::Help, ..setup },
        ),
{
    lemma_word_is_taken(arguments, setup, Flag::Help, 0);
    lemma_word_is_taken(arguments, setup, Flag::Help, 1);
    lemma_word_is_taken(arguments, setup, Flag::Help, 2);
}

/// So does a word for a window.
#[verifier::spinoff_prover]
pub proof fn law_the_last_word_for_a_window_decides(arguments: Seq<Seq<char>>, setup: Setup)
    requires
        set_up(arguments) == Ok::<Setup, Fault>(setup),
    ensures
        set_up(arguments.push("ui"@)) == Ok::<Setup, Fault>(
            Setup { command: Command::Ui, ..setup },
        ),
        set_up(arguments.push("--ui"@)) == Ok::<Setup, Fault>(
            Setup { command: Command::Ui, ..setup },
        ),
{
    lemma_word_is_taken(arguments, setup, Flag::Ui, 0);
    lemma_word_is_taken(arguments, setup, Flag::Ui, 1);
}

/// So does a word for the devices.
#[verifier::spinoff_prover]
pub proof fn law_the_last_word_for_devices_decides(arguments: Seq<Seq<char>>, setup: Setup)
    requires
        set_up(arguments) == Ok::<Setup, Fault>(setup),
    ensures
        set_up(arguments.push("devices"@)) == Ok::<Setup, Fault>(
            Setup { command: Command::Devices, ..setup },
        ),
        set_up(arguments.push("--devices"@)) == Ok::<Setup, Fault>(
            Setup { command: Command::Devices, ..setup },
        ),
        set_up(arguments.push("--list-devices"@)) == Ok::<Setup, Fault>(
            Setup { command: Command::Devices, ..setup },
        ),
{
    lemma_word_is_taken(arguments, setup, Flag::Devices, 0);
    lemma_word_is_taken(arguments, setup, Flag::Devices, 1);
    lemma_word_is_taken(arguments, setup, Flag::Devices, 2);
}

/// A mode at the end of a command line decides too, in whatever case it is written. No other word is
/// a mode.
pub proof fn law_the_last_mode_decides(arguments: Seq<Seq<char>>, setup: Setup, value: Seq<char>)
    requires
        set_up(arguments) == Ok::<Setup, Fault>(setup),
    ensures
        crate::lines::lowered(value) == "send"@ ==> set_up(arguments + seq!["--mode"@, value])
            == Ok::<Setup, Fault>(Setup { mode: StreamMode::Send, ..setup }),
        crate::lines::lowered(value) == "receive"@ || crate::lines::lowered(value) == "recv"@
            ==> set_up(arguments + seq!["--mode"@, value]) == Ok::<Setup, Fault>(
            Setup { mode: StreamMode::Receive, ..setup },
        ),
        crate::lines::lowered(value) != "send"@ && crate::lines::lowered(value) != "receive"@
            && crate::lines::lowered(value) != "recv"@ ==> set_up(
            arguments + seq!["--mode"@, value],
        ) == Err::<Setup, Fault>(Fault::InvalidMode(value)),
{
    reveal_strlit("send");
    reveal_strlit("receive");
    reveal_strlit("recv");
    assert("send"@[0] == 's' && "receive"@[0] == 'r' && "recv"@[0] == 'r');
    lemma_value_is_taken(arguments, setup, Flag::Mode, 0, value);
}

/// A channel count at the end of a command line decides, held between 1 and 96.
#[verifier::spinoff_prover]
pub proof fn law_the_last_channel_count_decides(arguments: Seq<Seq<char>>, setup: Setup, number: nat)
    requires
        set_up(arguments) == Ok::<Setup, Fault>(setup),
        number <= u8::MAX,
    ensures
        set_up(arguments + seq!["--channels"@, crate::text::decimal(number)]) == Ok::<Setup, Fault>(
            Setup { channels: if number == 0 {
                1
            } else if number > 96 {
                96
            } else {
                number as u8
            }, ..setup },
        ),
        set_up(arguments + seq!["-c"@, crate::text::decimal(number)]) == Ok::<Setup, Fault>(
            Setup { channels: if number == 0 {
                1
            } else if number > 96 {
                96
            } else {
                number as u8
            }, ..setup },
        ),
{
    crate::text::law_decimal_round_trip(number, u8::MAX as nat);
    lemma_value_is_taken(arguments, setup, Flag::Channels, 0, crate::text::decimal(number));
    lemma_value_is_taken(arguments, setup, Flag::Channels, 1, crate::text::decimal(number));
}

/// A port at the end of a command line decides, held above 0.
#[verifier::spinoff_prover]
pub proof fn law_the_last_port_decides(arguments: Seq<Seq<char>>, setup: Setup, number: nat)
    requires
        set_up(arguments) == Ok::<Setup, Fault>(setup),
        number <= u16::MAX,
    ensures
        set_up(arguments + seq!["--port"@, crate::text::decimal(number)]) == Ok::<Setup, Fault>(
            Setup { port: if number == 0 {
                1
            } else {
                number as u16
            }, ..setup },
        ),
        set_up(arguments + seq!["-p"@, crate::text::decimal(number)]) == Ok::<Setup, Fault>(
            Setup { port: if number == 0 {
                1
            } else {
                number as u16
            }, ..setup },
        ),
{
    crate::text::law_decimal_round_trip(number, u16::MAX as nat);
    lemma_value_is_taken(arguments, setup, Flag::Port, 0, crate::text::decimal(number));
    lemma_value_is_taken(arguments, setup, Flag::Port, 1, crate::text::decimal(number));
}

/// A clock domain at the end of a command line decides, held at 127.
#[verifier::spinoff_prover]
pub proof fn law_the_last_domain_decides(arguments: Seq<Seq<char>>, setup: Setup, number: nat)
    requires
        set_up(arguments) == Ok::<Setup, Fault>(setup),
        number <= u8::MAX,
    ensures
        set_up(arguments + seq!["--ptp-domain"@, crate::text::decimal(number)]) == Ok::<Setup, Fault>(
            Setup { ptp_domain: if number > 127 {
                127
            } else {
                number as u8
            }, ..setup },
        ),
{
    crate::text::law_decimal_round_trip(number, u8::MAX as nat);
    lemma_value_is_taken(arguments, setup, Flag::PtpDomain, 0, crate::text::decimal(number));
}

/// A sample rate at the end of a command line decides.
#[verifier::spinoff_prover]
pub proof fn law_the_last_sample_rate_decides(arguments: Seq<Seq<char>>, setup: Setup, number: nat)
    requires
        set_up(arguments) == Ok::<Setup, Fault>(setup),
        number <= u32::MAX,
    ensures
        set_up(arguments + seq!["--sample-rate"@, crate::text::decimal(number)]) == Ok::<Setup, Fault>(
            Setup { sample_rate_hz: number as u32, ..setup },
        ),
        set_up(arguments + seq!["-r"@, crate::text::decimal(number)]) == Ok::<Setup, Fault>(
            Setup { sample_rate_hz: number as u32, ..setup },
        ),
{
    crate::text::law_decimal_round_trip(number, u32::MAX as nat);
    lemma_value_is_taken(arguments, setup, Flag::SampleRate, 0, crate::text::decimal(number));
    lemma_value_is_taken(arguments, setup, Flag::SampleRate, 1, crate::text::decimal(number));
}

/// A duration at the end of a command line decides.
#[verifier::spinoff_prover]
pub proof fn law_the_last_duration_decides(arguments: Seq<Seq<char>>, setup: Setup, number: nat)
    requires
        set_up(arguments) == Ok::<Setup, Fault>(setup),
        number <= u64::MAX,
    ensures
        set_up(arguments + seq!["--duration"@, crate::text::decimal(number)]) == Ok::<Setup, Fault>(
            Setup { duration: Some(number as u64), ..setup },
        ),
{
    crate::text::law_decimal_round_trip(number, u64::MAX as nat);
    lemma_value_is_taken(arguments, setup, Flag::Duration, 0, crate::text::decimal(number));
}

/// What is no number where one is wanted is refused, and told why.
#[verifier::spinoff_prover]
pub proof fn law_values_that_are_no_numbers_are_refused(
    arguments: Seq<Seq<char>>,
    setup: Setup,
    value: Seq<char>,
    error: NumberError,
)
    requires
        set_up(arguments) == Ok::<Setup, Fault>(setup),
    ensures
        crate::text::number_of(value, 255) == Err::<nat, NumberError>(error) ==> set_up(
            arguments + seq!["--channels"@, value],
        ) == Err::<Setup, Fault>(Fault::InvalidNumber(error)),
        crate::text::number_of(value, 65_535) == Err::<nat, NumberError>(error) ==> set_up(
            arguments + seq!["--port"@, value],
        ) == Err::<Setup, Fault>(Fault::InvalidNumber(error)),
        crate::text::number_of(value, 255) == Err::<nat, NumberError>(error) ==> set_up(
            arguments + seq!["--ptp-domain"@, value],
        ) == Err::<Setup, Fault>(Fault::InvalidNumber(error)),
        crate::text::number_of(value, 0xffff_ffff) == Err::<nat, NumberError>(error) ==> set_up(
            arguments + seq!["--sample-rate"@, value],
        ) == Err::<Setup, Fault>(Fault::InvalidNumber(error)),
{
    lemma_value_is_taken(arguments, setup, Flag::Channels, 0, value);
    lemma_value_is_taken(arguments, setup, Flag::Port, 0, value);
    lemma_value_is_taken(arguments, setup, Flag::PtpDomain, 0, value);
    lemma_value_is_taken(arguments, setup, Flag::SampleRate, 0, value);
}

/// An address or a device behind its word at the end of a command line decides.
pub proof fn law_the_last_address_and_devices_decide(
    arguments: Seq<Seq<char>>,
    setup: Setup,
    ip: [u8; 4],
    name: Seq<char>,
)
    requires
        set_up(arguments) == Ok::<Setup, Fault>(setup),
    ensures
        set_up(arguments + seq!["--ip"@, crate::text::dotted(ip)]) == Ok::<Setup, Fault>(
            Setup { ip, ..setup },
        ),
        (forall|other: [u8; 4]| name != #[trigger] crate::text::dotted(other)) ==> set_up(
            arguments + seq!["--ip"@, name],
        ) == Err::<Setup, Fault>(Fault::InvalidAddress),
        set_up(arguments + seq!["--input"@, name]) == Ok::<Setup, Fault>(
            Setup { input_device: Some(name), ..setup },
        ),
        set_up(arguments + seq!["--output"@, name]) == Ok::<Setup, Fault>(
            Setup { output_device: Some(name), ..setup },
        ),
{
    lemma_value_is_taken(arguments, setup, Flag::Ip, 0, crate::text::dotted(ip));
    lemma_value_is_taken(arguments, setup, Flag::Ip, 0, name);
    lemma_value_is_taken(arguments, setup, Flag::Input, 0, name);
    lemma_value_is_taken(arguments, setup, Flag::Output, 0, name);
    let found = choose|other: [u8; 4]| crate::text::dotted(ip) == #[trigger] crate::text::dotted(
        other,
    );
    crate::text::law_dotted_is_injective(ip, found);
}

/// A command line that ends where a number should follow is refused.
#[verifier::spinoff_prover]
pub proof fn law_numbers_that_are_missing_are_told(arguments: Seq<Seq<char>>, setup: Setup)
    requires
        set_up(arguments) == Ok::<Setup, Fault>(setup),
    ensures
        set_up(arguments.push("--channels"@)) == Err::<Setup, Fault>(Fault::MissingValue("--channels"@)),
        set_up(arguments.push("-c"@)) == Err::<Setup, Fault>(Fault::MissingValue("--channels"@)),
        set_up(arguments.push("--port"@)) == Err::<Setup, Fault>(Fault::MissingValue("--port"@)),
        set_up(arguments.push("-p"@)) == Err::<Setup, Fault>(Fault::MissingValue("--port"@)),
        set_up(arguments.push("--ptp-domain"@)) == Err::<Setup, Fault>(Fault::MissingValue("--ptp-domain"@)),
        set_up(arguments.push("--sample-rate"@)) == Err::<Setup, Fault>(Fault::MissingValue("--sample-rate"@)),
        set_up(arguments.push("-r"@)) == Err::<Setup, Fault>(Fault::MissingValue("--sample-rate"@)),
        set_up(arguments.push("--duration"@)) == Err::<Setup, Fault>(Fault::MissingValue("--duration"@)),
{
    lemma_value_is_missed(arguments, setup, Flag::Channels, 0);
    lemma_value_is_missed(arguments, setup, Flag::Channels, 1);
    lemma_value_is_missed(arguments, setup, Flag::Port, 0);
    lemma_value_is_missed(arguments, setup, Flag::Port, 1);
    lemma_value_is_missed(arguments, setup, Flag::PtpDomain, 0);
    lemma_value_is_missed(arguments, setup, Flag::SampleRate, 0);
    lemma_value_is_missed(arguments, setup, Flag::SampleRate, 1);
    lemma_value_is_missed(arguments, setup, Flag::Duration, 0);
}

/// So is one that ends where a mode, an address or a device should follow.
#[verifier::spinoff_prover]
pub proof fn law_names_that_are_missing_are_told(arguments: Seq<Seq<char>>, setup: Setup)
    requires
        set_up(arguments) == Ok::<Setup, Fault>(setup),
    ensures
        set_up(arguments.push("--mode"@)) == Err::<Setup, Fault>(Fault::MissingValue("--mode"@)),
        set_up(arguments.push("--ip"@)) == Err::<Setup, Fault>(Fault::MissingValue("--ip"@)),
        set_up(arguments.push("--input"@)) == Err::<Setup, Fault>(Fault::MissingValue("--input"@)),
        set_up(arguments.push("--output"@)) == Err::<Setup, Fault>(Fault::MissingValue("--output"@)),
{
    lemma_value_is_missed(arguments, setup, Flag::Mode, 0);
    lemma_value_is_missed(arguments, setup, Flag::Ip, 0);
    lemma_value_is_missed(arguments, setup, Flag::Input, 0);
    lemma_value_is_missed(arguments, setup, Flag::Output, 0);
}

/// A word that stands for nothing is refused.
pub proof fn law_unknown_words_are_refused(
    arguments: Seq<Seq<char>>,
    setup: Setup,
    word: Seq<char>,
)
    requires
        set_up(arguments) == Ok::<Setup, Fault>(setup),
        word != "-h"@,
        word != "--help"@,
        word != "help"@,
        word != "ui"@,
        word != "--ui"@,
        word != "devices"@,
        word != "--devices"@,
        word != "--list-devices"@,
        word != "send"@,
        word != "receive"@,
        word != "recv"@,
        word != "--multicast"@,
        word != "--unicast"@,
        word != "--ptp"@,
        word != "--local-clock"@,
        word != "--mode"@,
        word != "--channels"@,
        word != "-c"@,
        word != "--port"@,
        word != "-p"@,
        word != "--ip"@,
        word != "--ptp-domain"@,
        word != "--sample-rate"@,
        word != "-r"@,
        word != "--input"@,
        word != "--output"@,
        word != "--duration"@,
    ensures
        set_up(arguments.push(word)) == Err::<Setup, Fault>(Fault::UnknownArgument(word)),
{
    assert(arguments + seq![word] =~= arguments.push(word));
    lemma_goes_on(arguments, seq![word], 0, Setup::usual(), setup);
    lemma_no_flag(word, 0);
}

/// A word that is no spelling of any flag is not found.
proof fn lemma_no_flag(word: Seq<char>, from: int)
    requires
        forall|flag: Flag| !(#[trigger] spellings(flag)).contains(word),
        0 <= from <= flags().len(),
    ensures
        flag_from(word, from) is None,
    decreases flags().len() - from,
{
    if from < flags().len() {
        lemma_no_flag(word, from + 1);
    }
}

/// A fault in a command line stays, whatever follows, unless it is that a value is missing at its
/// end.
pub proof fn law_faults_stay(arguments: Seq<Seq<char>>, more: Seq<Seq<char>>, fault: Fault)
    requires
        set_up(arguments) == Err::<Setup, Fault>(fault),
        !(fault is MissingValue),
    ensures
        set_up(arguments + more) == Err::<Setup, Fault>(fault),
{
    lemma_fault_stays(arguments, more, fault, 0, Setup::usual());
}

proof fn lemma_fault_stays(
    arguments: Seq<Seq<char>>,
    more: Seq<Seq<char>>,
    fault: Fault,
    at: int,
    setup: Setup,
)
    requires
        0 <= at,
        set_up_from(arguments, at, setup) == Err::<Setup, Fault>(fault),
        !(fault is MissingValue),
    ensures
        set_up_from(arguments + more, at, setup) == Err::<Setup, Fault>(fault),
    decreases arguments.len() - at,
{
    if at < arguments.len() {
        assert((arguments + more)[at] == arguments[at]);
        if let Some(flag) = flag_of(arguments[at]) {
            if !takes_value(flag) {
                lemma_fault_stays(arguments, more, fault, at + 1, with_flag(setup, flag));
            } else if at + 1 < arguments.len() {
                assert((arguments + more)[at + 1] == arguments[at + 1]);
                if let Ok(next) = with_value(setup, flag, arguments[at + 1]) {
                    lemma_fault_stays(arguments, more, fault, at + 2, next);
                }
            }
        }
    }
}

/// What is wrong with a command line is told in words, with the word or value that is at fault.
pub proof fn law_faults_are_told_in_words(text: Seq<char>, error: NumberError)
    ensures
        Fault::UnknownArgument(text).words() == "unknown argument: "@ + text,
        Fault::MissingValue(text).words() == "missing value for "@ + text,
        Fault::InvalidMode(text).words() == "invalid mode: "@ + text,
        Fault::InvalidNumber(error).words() == error.words(),
        Fault::InvalidAddress.words() == "invalid IPv4 address syntax"@,
{
}

/// The stream of a command line is on, and is what was set.
pub proof fn law_the_stream_of_a_command_line_is_on(setup: Setup)
    ensures
        ({
            let params = setup.stream();
            &&& params.enabled
            &&& params.mode == setup.mode
            &&& params.transport == setup.transport
            &&& params.channels == setup.channels
            &&& params.port == setup.port
            &&& params.ip == setup.ip
            &&& params.clock_reference == setup.clock_reference
            &&& params.ptp_domain == setup.ptp_domain
        }),
{
}

} // verus!
