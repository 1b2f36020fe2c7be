//! One ping, as a sequence of decisions.
//!
//! A [`Session`] says what to do next, and is told how it went: an [`Action`] is
//! carried out by the caller, who does all the I/O, and the [`Event`] it ends in
//! is handed back. Whatever happens before the status is in hand fails the ping.
//! From then on nothing does: the latency round trip is best-effort.

use crate::error::{Error, Refusal};
use crate::models::{Address, PingOptions, PingResult, ResolvedAddress, ServerAddress, StatusResponse};
use crate::protocol::{
    build_handshake, build_ping_packet, build_status_request, framed, handshake_body, now_nanos,
    parse_pong_frame, parse_status_frame, ping_body, pong_payload, stamp, status_json,
    status_request_body,
};
use crate::resolve::{
    direct, direct_target, lookup_name, open_to_srv, resolved_address, service_of, target_of,
    Target,
};
use crate::srv::{query_name, SrvRecord};
use crate::text::{contains_char, debug_string, debug_text};
use std::time::Duration;
use vstd::pervasive::unreached;
use vstd::prelude::*;

verus! {

/// Where a ping stands: what it is waiting for.
pub enum Stage {
    /// The outcome of the SRV lookup.
    Resolving,
    /// A connection, to this port.
    Connecting { port: u16 },
    /// The handshake to be sent.
    Greeting,
    /// The status request to be sent.
    Requesting,
    /// The status frame.
    AwaitingStatus,
    /// The status, parsed from its JSON text.
    Decoding,
    /// The time, to be sent in the ping.
    Stamping { status: StatusResponse },
    /// The ping to be sent.
    Pinging { status: StatusResponse },
    /// The pong frame.
    AwaitingPong { status: StatusResponse },
    /// The time that has passed since the ping was sent.
    Measuring { status: StatusResponse },
    /// Nothing: the ping is over.
    Over,
}

/// How an action went.
pub enum Event {
    /// The lookup is done, with the record that was picked. A lookup that fails
    /// yields none.
    Record(Option<SrvRecord>),
    /// The connection stands.
    Connected,
    /// The bytes are on their way.
    Sent,
    /// A frame has arrived.
    Frame(Vec<u8>),
    /// The JSON text is parsed.
    Decoded(StatusResponse),
    /// The nanoseconds since the Unix epoch, if the clock stands past it.
    Time(Option<u128>),
    /// The time since the last bytes were sent.
    Elapsed(Duration),
    /// The action failed.
    Failed(Error),
    /// The time of the whole operation is up.
    TimedOut,
}

/// What the caller is to do next.
pub enum Action {
    /// Look up the SRV records under this name and pick one.
    Lookup(String),
    /// Connect to this host and port.
    Connect(String, u16),
    /// Send these bytes.
    Send(Vec<u8>),
    /// Read a frame of at most this size.
    ReadFrame(u32),
    /// Parse this JSON text into a status.
    Decode(Vec<u8>),
    /// Read the clock.
    ReadClock,
    /// Take the time since the last bytes were sent.
    Measure,
    /// Report this result: the ping is over.
    Finish(Result<PingResult, Error>),
}

/// Why a ping fails.
pub enum Failure {
    /// With the error that an action ended in.
    Error(Error),
    /// With a refusal of what the server sent.
    Refused(Refusal),
    /// With a DNS error that says this.
    Dns(Seq<char>),
}

/// What an action amounts to, texts and bytes as sequences.
pub enum Move {
    Lookup(Seq<char>),
    Connect(Seq<char>, u16),
    Send(Seq<u8>),
    ReadFrame(u32),
    Decode(Seq<u8>),
    ReadClock,
    Measure,
    Succeed(StatusResponse, Option<Duration>),
    Fail(Failure),
}

impl Action {
    /// Whether the action amounts to this.
    pub open spec fn is_move(self, expected: Move) -> bool {
        match expected {
            Move::Lookup(name) => self matches Action::Lookup(found) && found@ == name,
            Move::Connect(host, port) => self matches Action::Connect(found, at) && found@ == host
                && at == port,
            Move::Send(bytes) => self matches Action::Send(found) && found@ == bytes,
            Move::ReadFrame(limit) => self == Action::ReadFrame(limit),
            Move::Decode(json) => self matches Action::Decode(found) && found@ == json,
            Move::ReadClock => self == Action::ReadClock,
            Move::Measure => self == Action::Measure,
            Move::Succeed(status, latency) => self matches Action::Finish(Ok(result))
                && result.status == status && result.latency == latency,
            Move::Fail(failure) => self matches Action::Finish(Err(e)) && (match failure {
                Failure::Error(error) => e == error,
                Failure::Refused(refusal) => e.says(refusal),
                Failure::Dns(message) => e matches Error::Dns(found) && found@ == message,
            }),
        }
    }
}

/// A ping under way.
pub struct Session {
    /// The address as the user typed it.
    pub address: ServerAddress,
    pub options: PingOptions,
    pub stage: Stage,
}

impl Stage {
    /// The status, once it is in hand.
    pub open spec fn status(self) -> Option<StatusResponse> {
        match self {
            Stage::Stamping { status } => Some(status),
            Stage::Pinging { status } => Some(status),
            Stage::AwaitingPong { status } => Some(status),
            Stage::Measuring { status } => Some(status),
            _ => None,
        }
    }
}

/// The message for a host that is a wildcard.
pub open spec fn wildcard_message(host: Seq<char>) -> Seq<char> {
    "SRV target "@ + debug_text(host) + " is a wildcard and cannot be connected to"@
}

/// How a connection is begun. A wildcard target (`"*.example.com"`) cannot be
/// resolved to a host.
pub open spec fn approach(target: Target) -> (Stage, Move) {
    if target.host.contains('*') {
        (Stage::Over, Move::Fail(Failure::Dns(wildcard_message(target.host))))
    } else {
        (Stage::Connecting { port: target.port }, Move::Connect(target.host, target.port))
    }
}

/// How a ping begins: with a lookup, if the options allow one and the address
/// leaves room for it.
pub open spec fn beginning(address: Address, options: PingOptions) -> (Stage, Move) {
    if options.use_srv && open_to_srv(address) {
        (Stage::Resolving, Move::Lookup(query_name(address.host)))
    } else {
        approach(direct_target(address))
    }
}

/// What follows once the status is in hand: the latency round trip if it is
/// asked for.
pub open spec fn after_status(options: PingOptions, status: StatusResponse) -> (Stage, Move) {
    if options.measure_latency {
        (Stage::Stamping { status }, Move::ReadClock)
    } else {
        (Stage::Over, Move::Succeed(status, None))
    }
}

/// What a failure costs: the latency if the status is in hand, else the ping.
pub open spec fn setback(stage: Stage, failure: Failure) -> (Stage, Move) {
    match stage.status() {
        Some(status) => (Stage::Over, Move::Succeed(status, None)),
        None => (Stage::Over, Move::Fail(failure)),
    }
}

impl Session {
    /// Whether the event is one that the session waits for.
    pub open spec fn expects(self, event: Event) -> bool {
        match event {
            Event::Record(_) => self.stage is Resolving,
            Event::Connected => self.stage is Connecting,
            Event::Sent => self.stage is Greeting || self.stage is Requesting || self.stage
                is Pinging,
            Event::Frame(_) => self.stage is AwaitingStatus || self.stage is AwaitingPong,
            Event::Decoded(_) => self.stage is Decoding,
            Event::Time(_) => self.stage is Stamping,
            Event::Elapsed(_) => self.stage is Measuring,
            Event::Failed(_) => !(self.stage is Resolving || self.stage is Over),
            Event::TimedOut => !(self.stage is Over),
        }
    }

    /// What comes next after an event that the session expects.
    pub open spec fn next(self, event: Event) -> (Stage, Move) {
        match event {
            Event::Record(record) => approach(target_of(self.address@, service_of(record))),
            Event::Connected => (
                Stage::Greeting,
                Move::Send(
                    framed(
                        handshake_body(
                            self.options.protocol_version,
                            self.address.host@,
                            self.stage->port,
                        ),
                    ),
                ),
            ),
            Event::Sent => match self.stage {
                Stage::Greeting => (Stage::Requesting, Move::Send(framed(status_request_body()))),
                Stage::Pinging { status } => (
                    Stage::AwaitingPong { status },
                    Move::ReadFrame(self.options.max_frame_size),
                ),
                _ => (Stage::AwaitingStatus, Move::ReadFrame(self.options.max_frame_size)),
            },
            Event::Frame(frame) => match self.stage {
                Stage::AwaitingPong { status } => if pong_payload(frame@) is Ok {
                    (Stage::Measuring { status }, Move::Measure)
                } else {
                    (Stage::Over, Move::Succeed(status, None))
                },
                _ => match status_json(frame@) {
                    Ok(json) => (Stage::Decoding, Move::Decode(json)),
                    Err(refusal) => (Stage::Over, Move::Fail(Failure::Refused(refusal))),
                },
            },
            Event::Decoded(status) => after_status(self.options, status),
            Event::Time(since_epoch) => (
                Stage::Pinging { status: self.stage.status().unwrap() },
                Move::Send(framed(ping_body(stamp(since_epoch)))),
            ),
            Event::Elapsed(latency) => (
                Stage::Over,
                Move::Succeed(self.stage.status().unwrap(), Some(latency)),
            ),
            Event::Failed(error) => setback(self.stage, Failure::Error(error)),
            Event::TimedOut => setback(
                self.stage,
                Failure::Error(Error::Timeout(self.options.timeout)),
            ),
        }
    }
}

/// Begins a connection.
fn connect(target: ResolvedAddress) -> (res: (Stage, Action))
    ensures
        res.0 == approach(target@).0,
        res.1.is_move(approach(target@).1),
{
    if contains_char(target.host.as_str(), '*') {
        let host = debug_string(target.host.as_str());
        let message = "SRV target ".to_owned().concat(host.as_str()).concat(
            " is a wildcard and cannot be connected to",
        );
        return (Stage::Over, Action::Finish(Err(Error::Dns(message))));
    }
    (Stage::Connecting { port: target.port }, Action::Connect(target.host, target.port))
}

/// Sends a packet, unless it could not be built.
fn send(stage: Stage, packet: Result<Vec<u8>, Error>) -> (res: (Stage, Action))
    requires
        packet is Ok,
    ensures
        res.0 == stage,
        res.1.is_move(Move::Send(packet->Ok_0@)),
{
    match packet {
        Ok(bytes) => (stage, Action::Send(bytes)),
        Err(e) => (Stage::Over, Action::Finish(Err(e))),
    }
}

/// Succeeds with the status.
fn succeed(status: StatusResponse, latency: Option<Duration>) -> (res: (Stage, Action))
    ensures
        res.0 == Stage::Over,
        res.1.is_move(Move::Succeed(status, latency)),
{
    (Stage::Over, Action::Finish(Ok(PingResult { status, latency })))
}

/// Fails, or succeeds without latency if the status is in hand.
fn fall_back(stage: Stage, error: Error) -> (res: (Stage, Action))
    ensures
        res.0 == setback(stage, Failure::Error(error)).0,
        res.1.is_move(setback(stage, Failure::Error(error)).1),
{
    match stage {
        Stage::Stamping { status } => succeed(status, None),
        Stage::Pinging { status } => succeed(status, None),
        Stage::AwaitingPong { status } => succeed(status, None),
        Stage::Measuring { status } => succeed(status, None),
        _ => (Stage::Over, Action::Finish(Err(error))),
    }
}

impl Session {
    /// Begins a ping.
    pub fn start(address: ServerAddress, options: PingOptions) -> (res: (Session, Action))
        ensures
            res.0.address == address,
            res.0.options == options,
            res.0.stage == beginning(address@, options).0,
            res.1.is_move(beginning(address@, options).1),
    {
        let (stage, action) = match lookup_name(&address, &options) {
            Some(name) => (Stage::Resolving, Action::Lookup(name)),
            None => connect(direct(&address)),
        };
        (Session { address, options, stage }, action)
    }

    /// Takes the event that the last action ended in, and says what to do next.
    pub fn step(self, event: Event) -> (res: (Session, Action))
        requires
            self.expects(event),
        ensures
            res.0.address == self.address,
            res.0.options == self.options,
            res.0.stage == self.next(event).0,
            res.1.is_move(self.next(event).1),
    {
        let Session { address, options, stage } = self;
        let (stage, action) = match (event, stage) {
            (Event::Record(record), _) => connect(resolved_address(&address, record)),
            (Event::Connected, Stage::Connecting { port }) => send(
                Stage::Greeting,
                build_handshake(options.protocol_version, address.host.as_str(), port),
            ),
            (Event::Sent, Stage::Greeting) => send(Stage::Requesting, build_status_request()),
            (Event::Sent, Stage::Requesting) => (
                Stage::AwaitingStatus,
                Action::ReadFrame(options.max_frame_size),
            ),
            (Event::Sent, Stage::Pinging { status }) => (
                Stage::AwaitingPong { status },
                Action::ReadFrame(options.max_frame_size),
            ),
            (Event::Frame(frame), Stage::AwaitingStatus) => match parse_status_frame(
                frame.as_slice(),
            ) {
                Ok(json) => (Stage::Decoding, Action::Decode(json)),
                Err(e) => (Stage::Over, Action::Finish(Err(e))),
            },
            (Event::Frame(frame), Stage::AwaitingPong { status }) => match parse_pong_frame(
                frame.as_slice(),
            ) {
                Ok(_) => (Stage::Measuring { status }, Action::Measure),
                Err(_) => succeed(status, None),
            },
            (Event::Decoded(status), _) => if options.measure_latency {
                (Stage::Stamping { status }, Action::ReadClock)
            } else {
                succeed(status, None)
            },
            (Event::Time(since_epoch), Stage::Stamping { status }) => send(
                Stage::Pinging { status },
                build_ping_packet(now_nanos(since_epoch)),
            ),
            (Event::Elapsed(latency), Stage::Measuring { status }) => succeed(
                status,
                Some(latency),
            ),
            (Event::Failed(error), stage) => fall_back(stage, error),
            (Event::TimedOut, stage) => fall_back(stage, Error::Timeout(options.timeout)),
            _ => unreached(),
        };
        (Session { address, options, stage }, action)
    }
}

} // verus!
