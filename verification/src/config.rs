//! The configuration of the service, and how a command line becomes one.
//!
//! The command line is `echos <protocol> <host> <port> [buffer_size]`: the
//! host comes second and the port third. The arguments are checked in that
//! order, and the first one that is missing or wrong decides the error.

use crate::number::{
    decimal_digits, lemma_numeral_reads_back, parse_unsigned, read_unsigned, write_decimal,
    NumberError,
};
use crate::text::same_text;
use vstd::prelude::*;

verus! {

/// The transport that the service listens on.
#[derive(Clone, Copy, Debug, PartialEq, Eq, Structural)]
pub enum Protocol {
    /// Connections that carry a stream of bytes; `tcp` on the command line.
    Stream,
    /// Single messages with no connection; `udp` on the command line.
    Datagram,
}

/// What the service is started with. It is made once and only read after.
#[derive(Clone, Debug)]
pub struct Config {
    /// The transport to listen on.
    pub protocol: Protocol,
    /// The address to bind, as it was given: four segments between dots.
    pub host: String,
    /// The port to bind.
    pub port: u16,
    /// The size of the receive buffer for datagrams, in bytes; at least one.
    pub datagram_buffer_size: usize,
}

/// A configuration as the contracts see it.
pub struct Settings {
    /// The transport to listen on.
    pub protocol: Protocol,
    /// The characters of the address to bind.
    pub host: Seq<char>,
    /// The port to bind.
    pub port: u16,
    /// The size of the receive buffer for datagrams, in bytes.
    pub datagram_buffer_size: usize,
}

impl Settings {
    /// What holds of every configuration that a command line gives: the
    /// host has four segments, and the datagram buffer holds at least one
    /// byte.
    pub open spec fn is_valid(self) -> bool {
        is_host(self.host) && self.datagram_buffer_size >= 1
    }
}

impl View for Config {
    type V = Settings;

    open spec fn view(&self) -> Settings {
        Settings {
            protocol: self.protocol,
            host: self.host@,
            port: self.port,
            datagram_buffer_size: self.datagram_buffer_size,
        }
    }
}

/// Why a command line is refused.
#[derive(Clone, Copy, Debug, PartialEq, Eq, Structural)]
pub enum UsageError {
    /// The protocol, the host or the port is not there.
    MissingArgument,
    /// The protocol is neither `tcp` nor `udp`.
    UnsupportedProtocol,
    /// The host does not have four segments.
    InvalidHost,
    /// The port is no number from 0 to 65535.
    InvalidPort(NumberError),
    /// The buffer size is no positive number that the machine can hold.
    InvalidBufferSize(NumberError),
}

/// The number of segments that a host has between its dots.
pub const HOST_SEGMENTS: usize = 4;

/// The size of the datagram buffer where the command line gives none.
pub const DEFAULT_DATAGRAM_BUFFER_SIZE: usize = 1024;

/// The protocol that `name` stands for on the command line, if any.
pub open spec fn protocol_named(name: Seq<char>) -> Option<Protocol> {
    if name == seq!['t', 'c', 'p'] {
        Some(Protocol::Stream)
    } else if name == seq!['u', 'd', 'p'] {
        Some(Protocol::Datagram)
    } else {
        None
    }
}

/// The number of segments that the dots cut `host` into: one more than it
/// has dots. A segment may be empty.
pub open spec fn segment_count(host: Seq<char>) -> nat {
    host.filter(|c: char| c == '.').len() + 1
}

/// `host` is accepted as a host: it has four segments. What the segments
/// hold is not looked at.
pub open spec fn is_host(host: Seq<char>) -> bool {
    segment_count(host) == HOST_SEGMENTS
}

/// What `text` means as a port.
pub open spec fn port_of(text: Seq<char>) -> Result<u16, NumberError> {
    match parse_unsigned(text, u16::MAX as nat) {
        Ok(port) => Ok(port as u16),
        Err(error) => Err(error),
    }
}

/// What `text` means as the size of the datagram buffer.
pub open spec fn buffer_size_of(text: Seq<char>) -> Result<usize, NumberError> {
    match parse_unsigned(text, usize::MAX as nat) {
        Ok(size) => if size == 0 {
            Err(NumberError::Zero)
        } else {
            Ok(size as usize)
        },
        Err(error) => Err(error),
    }
}

/// What a command line means. `arguments[0]` is the program's name and is
/// not looked at; arguments after the buffer size are not looked at either.
pub open spec fn parse_arguments(arguments: Seq<Seq<char>>) -> Result<Settings, UsageError> {
    if arguments.len() < 2 {
        Err(UsageError::MissingArgument)
    } else if protocol_named(arguments[1]) is None {
        Err(UsageError::UnsupportedProtocol)
    } else if arguments.len() < 3 {
        Err(UsageError::MissingArgument)
    } else if !is_host(arguments[2]) {
        Err(UsageError::InvalidHost)
    } else if arguments.len() < 4 {
        Err(UsageError::MissingArgument)
    } else if port_of(arguments[3]) is Err {
        Err(UsageError::InvalidPort(port_of(arguments[3])->Err_0))
    } else if arguments.len() > 4 && buffer_size_of(arguments[4]) is Err {
        Err(UsageError::InvalidBufferSize(buffer_size_of(arguments[4])->Err_0))
    } else {
        Ok(
            Settings {
                protocol: protocol_named(arguments[1])->Some_0,
                host: arguments[2],
                port: port_of(arguments[3])->Ok_0,
                datagram_buffer_size: if arguments.len() > 4 {
                    buffer_size_of(arguments[4])->Ok_0
                } else {
                    DEFAULT_DATAGRAM_BUFFER_SIZE
                },
            },
        )
    }
}

/// The address that a configuration binds: the host, a colon, and the port
/// in decimal.
pub open spec fn address_of(settings: Settings) -> Seq<char> {
    settings.host + seq![':'] + decimal_digits(settings.port as nat)
}

/// The texts of the arguments of a command line.
pub open spec fn texts(arguments: Seq<String>) -> Seq<Seq<char>> {
    arguments.map_values(|argument: String| argument@)
}

impl Protocol {
    /// The protocol that `name` stands for on the command line.
    pub fn from_name(name: &str) -> (protocol: Option<Protocol>)
        ensures
            protocol == protocol_named(name@),
    {
        proof {
            reveal_strlit("tcp");
            reveal_strlit("udp");
            assert("tcp"@ =~= seq!['t', 'c', 'p']);
            assert("udp"@ =~= seq!['u', 'd', 'p']);
        }
        if same_text(name, "tcp") {
            Some(Protocol::Stream)
        } else if same_text(name, "udp") {
            Some(Protocol::Datagram)
        } else {
            None
        }
    }
}

/// Whether `host` is accepted as a host.
pub fn check_host(host: &str) -> (accepted: bool)
    ensures
        accepted == is_host(host@),
{
    let ghost is_dot = |c: char| c == '.';
    let mut dots: usize = 0;
    for c in it: host.chars()
        invariant
            it.seq() == host@,
            is_dot == (|c: char| c == '.'),
            dots <= HOST_SEGMENTS,
            dots < HOST_SEGMENTS ==> dots == host@.take(it.index() as int).filter(is_dot).len(),
            dots == HOST_SEGMENTS ==> host@.take(it.index() as int).filter(is_dot).len()
                >= HOST_SEGMENTS,
    {
        proof {
            let seen = host@.take(it.index() as int);
            seen.lemma_filter_len_push(is_dot, c);
            assert(host@.take(it.index() + 1) =~= seen.push(c));
        }
        if c == '.' && dots < HOST_SEGMENTS {
            dots = dots + 1;
        }
    }
    assert(host@.take(host@.len() as int) =~= host@);
    dots + 1 == HOST_SEGMENTS
}

/// Reads `text` as a port.
pub fn read_port(text: &str) -> (port: Result<u16, NumberError>)
    ensures
        port == port_of(text@),
{
    match read_unsigned(text, u16::MAX as u64) {
        Ok(port) => Ok(port as u16),
        Err(error) => Err(error),
    }
}

/// Reads `text` as the size of the datagram buffer.
pub fn read_buffer_size(text: &str) -> (size: Result<usize, NumberError>)
    ensures
        size == buffer_size_of(text@),
{
    match read_unsigned(text, usize::MAX as u64) {
        Ok(size) => if size == 0 {
            Err(NumberError::Zero)
        } else {
            Ok(size as usize)
        },
        Err(error) => Err(error),
    }
}

impl Config {
    /// Reads a command line, the program's name first.
    pub fn from_args(arguments: &[String]) -> (config: Result<Config, UsageError>)
        ensures
            match config {
                Ok(config) => parse_arguments(texts(arguments@)) == Ok::<Settings, UsageError>(
                    config@,
                ) && config@.is_valid(),
                Err(error) => parse_arguments(texts(arguments@)) == Err::<Settings, UsageError>(
                    error,
                ),
            },
    {
        if arguments.len() < 2 {
            return Err(UsageError::MissingArgument);
        }
        let protocol = match Protocol::from_name(arguments[1].as_str()) {
            Some(protocol) => protocol,
            None => {
                return Err(UsageError::UnsupportedProtocol);
            },
        };
        if arguments.len() < 3 {
            return Err(UsageError::MissingArgument);
        }
        if !check_host(arguments[2].as_str()) {
            return Err(UsageError::InvalidHost);
        }
        if arguments.len() < 4 {
            return Err(UsageError::MissingArgument);
        }
        let port = match read_port(arguments[3].as_str()) {
            Ok(port) => port,
            Err(error) => {
                return Err(UsageError::InvalidPort(error));
            },
        };
        let datagram_buffer_size = if arguments.len() > 4 {
            match read_buffer_size(arguments[4].as_str()) {
                Ok(size) => size,
                Err(error) => {
                    return Err(UsageError::InvalidBufferSize(error));
                },
            }
        } else {
            DEFAULT_DATAGRAM_BUFFER_SIZE
        };
        Ok(Config { protocol, host: arguments[2].clone(), port, datagram_buffer_size })
    }

    /// The address to bind, as `host:port`.
    pub fn address(&self) -> (address: String)
        ensures
            address@ == address_of(self@),
    {
        let mut address = self.host.clone();
        proof {
            reveal_strlit(":");
        }
        address.append(":");
        write_decimal(self.port as u64, &mut address);
        address
    }
}

/// The port of an address reads back as the port of the configuration.
pub proof fn lemma_address_names_the_port(settings: Settings)
    ensures
        address_of(settings).len() > settings.host.len() + 1,
        address_of(settings).take(settings.host.len() as int) == settings.host,
        address_of(settings)[settings.host.len() as int] == ':',
        port_of(address_of(settings).skip(settings.host.len() as int + 1)) == Ok::<
            u16,
            NumberError,
        >(settings.port),
{
    let digits = decimal_digits(settings.port as nat);
    lemma_numeral_reads_back(settings.port as nat, u16::MAX as nat);
    assert(address_of(settings).skip(settings.host.len() as int + 1) =~= digits);
}

} // verus!
