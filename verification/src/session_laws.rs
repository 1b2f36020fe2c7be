//! What holds of a ping from its beginning to its end.

use crate::error::{Error, Refusal};
use crate::ip::is_ip;
use crate::models::{Address, PingOptions, PingResult, StatusResponse, DEFAULT_PORT};
use crate::protocol::{
    framed, handshake_body, ping_body, pong_payload, stamp, status_json, status_request_body,
};
use crate::protocol_laws::law_pong_echoes_the_timestamp;
use crate::resolve::{direct_target, Target};
use crate::session::{
    after_status, approach, beginning, Action, Event, Failure, Move, Session, Stage,
};
use crate::srv::{query_name, SrvRecord};
use crate::text::debug_text;
use std::time::Duration;
use vstd::prelude::*;

verus! {

/// The session after a sequence of events.
pub open spec fn reached(session: Session, events: Seq<Event>) -> Session
    decreases events.len(),
{
    if events.len() == 0 {
        session
    } else {
        let before = reached(session, events.drop_last());
        Session {
            address: before.address,
            options: before.options,
            stage: before.next(events.last()).0,
        }
    }
}

/// Whether each event is one that the session waits for when it comes.
pub open spec fn unfolds(session: Session, events: Seq<Event>) -> bool
    decreases events.len(),
{
    events.len() > 0 ==> unfolds(session, events.drop_last()) && reached(
        session,
        events.drop_last(),
    ).expects(events.last())
}

/// What the session does about the last of the events.
pub open spec fn last_move(session: Session, events: Seq<Event>) -> Move {
    reached(session, events.drop_last()).next(events.last()).1
}

/// Whether a move is the success of a ping, with this status.
pub open spec fn succeeds_with(outcome: Move, status: StatusResponse) -> bool {
    outcome matches Move::Succeed(found, _) && found == status
}

// ─── The status ──────────────────────────────────────────────────────────────

/// **Once the status is in hand, nothing fails the ping**: whatever happens, the
/// status is either kept or reported.
pub proof fn law_status_in_hand_is_not_lost(session: Session, event: Event)
    requires
        session.stage.status() is Some,
        session.expects(event),
    ensures
        ({
            let status = session.stage.status().unwrap();
            let (stage, outcome) = session.next(event);
            if stage is Over {
                succeeds_with(outcome, status)
            } else {
                stage.status() == Some(status)
            }
        }),
{
}

/// **A ping that has its status ends with it**, whatever events follow.
pub proof fn law_ping_with_a_status_ends_with_it(session: Session, events: Seq<Event>)
    requires
        session.stage.status() is Some,
        unfolds(session, events),
    ensures
        ({
            let status = session.stage.status().unwrap();
            let end = reached(session, events);
            if end.stage is Over {
                succeeds_with(last_move(session, events), status)
            } else {
                end.stage.status() == Some(status)
            }
        }),
    decreases events.len(),
{
    if events.len() > 0 {
        law_ping_with_a_status_ends_with_it(session, events.drop_last());
        law_status_in_hand_is_not_lost(reached(session, events.drop_last()), events.last());
    }
}

/// **Until the status is in hand, a failure fails the ping with its own error,
/// and running out of time fails it with [`Error::Timeout`].**
pub proof fn law_failure_before_the_status_fails_the_ping(session: Session, event: Event)
    requires
        session.stage.status() is None,
        session.expects(event),
    ensures
        event matches Event::Failed(error) ==> session.next(event) == (
            Stage::Over,
            Move::Fail(Failure::Error(error)),
        ),
        event is TimedOut ==> session.next(event) == (
            Stage::Over,
            Move::Fail(Failure::Error(Error::Timeout(session.options.timeout))),
        ),
{
}

// ─── The latency ─────────────────────────────────────────────────────────────

/// **Latency is reported only as measured**: a ping succeeds with a latency if,
/// and only if, its last event is the time that the round trip took.
pub proof fn law_latency_is_what_was_measured(session: Session, event: Event, latency: Duration)
    requires
        session.expects(event),
    ensures
        (session.next(event).1 matches Move::Succeed(_, found) && found == Some(latency)) <==> event
            == Event::Elapsed(latency),
{
}

/// **Latency is measured only on demand**: a ping that was not asked for it never
/// succeeds with one, and never comes to hold its status back for it.
pub proof fn law_latency_needs_the_option(
    address: Address,
    session: Session,
    events: Seq<Event>,
)
    requires
        session.address@ == address,
        session.stage == beginning(address, session.options).0,
        unfolds(session, events),
        !session.options.measure_latency,
    ensures
        reached(session, events).stage.status() is None,
        events.len() > 0 ==> !(last_move(session, events) matches Move::Succeed(_, Some(_))),
    decreases events.len(),
{
    if events.len() > 0 {
        law_latency_needs_the_option(address, session, events.drop_last());
        lemma_session_is_kept(session, events.drop_last());
    }
}

/// Address and options stay what they were.
proof fn lemma_session_is_kept(session: Session, events: Seq<Event>)
    ensures
        reached(session, events).address == session.address,
        reached(session, events).options == session.options,
    decreases events.len(),
{
    if events.len() > 0 {
        lemma_session_is_kept(session, events.drop_last());
    }
}

// ─── Progress ────────────────────────────────────────────────────────────────

/// How far a ping has come.
pub open spec fn progress(stage: Stage) -> nat {
    match stage {
        Stage::Resolving => 0,
        Stage::Connecting { .. } => 1,
        Stage::Greeting => 2,
        Stage::Requesting => 3,
        Stage::AwaitingStatus => 4,
        Stage::Decoding => 5,
        Stage::Stamping { .. } => 6,
        Stage::Pinging { .. } => 7,
        Stage::AwaitingPong { .. } => 8,
        Stage::Measuring { .. } => 9,
        Stage::Over => 10,
    }
}

/// **Every ping comes to an end**: each event takes it further, so that ten at
/// most can follow each other.
pub proof fn law_every_ping_ends(session: Session, events: Seq<Event>)
    requires
        unfolds(session, events),
    ensures
        progress(session.stage) + events.len() <= progress(reached(session, events).stage),
        events.len() <= 10,
    decreases events.len(),
{
    if events.len() > 0 {
        law_every_ping_ends(session, events.drop_last());
    }
}

/// **A ping is over when, and only when, it reports.**
pub proof fn law_the_report_is_the_end(session: Session, event: Event)
    requires
        session.expects(event),
    ensures
        session.next(event).0 is Over <==> (session.next(event).1 is Succeed || session.next(
            event,
        ).1 is Fail),
{
}

// ─── The conversation ────────────────────────────────────────────────────────

/// **A complete address is used as given**: an explicit port, an IP literal or
/// the option turned off rules the lookup out, and the connection goes to the
/// host and port of the address.
pub proof fn law_complete_address_is_used_as_given(address: Address, options: PingOptions)
    requires
        address.port is Some || is_ip(address.host) || !options.use_srv,
        !address.host.contains('*'),
    ensures
        ({
            let port = match address.port {
                Some(port) => port,
                None => DEFAULT_PORT,
            };
            beginning(address, options) == (
                Stage::Connecting { port },
                Move::Connect(address.host, port),
            )
        }),
{
}

/// **A lookup without a usable record falls back to the address as given.**
pub proof fn law_failed_lookup_falls_back(session: Session)
    requires
        session.stage is Resolving,
    ensures
        session.next(Event::Record(None)) == approach(direct_target(session.address@)),
{
}

/// **The handshake keeps the original hostname**: an SRV record sends the
/// connection to its target and port, and the handshake carries that port, but
/// the host that the user typed.
pub proof fn law_handshake_keeps_the_original_host(session: Session, record: SrvRecord)
    requires
        session.stage is Resolving,
        !record.target@.contains('*'),
    ensures
        ({
            let found = seq![Event::Record(Some(record))];
            let connected = found.push(Event::Connected);
            &&& unfolds(session, connected)
            &&& last_move(session, found) == Move::Connect(record.target@, record.port)
            &&& last_move(session, connected) == Move::Send(
                framed(
                    handshake_body(
                        session.options.protocol_version,
                        session.address.host@,
                        record.port,
                    ),
                ),
            )
        }),
{
    let found = seq![Event::Record(Some(record))];
    let connected = found.push(Event::Connected);
    assert(found.drop_last() =~= Seq::<Event>::empty());
    assert(connected.drop_last() =~= found);
    reveal_with_fuel(reached, 3);
    reveal_with_fuel(unfolds, 3);
}

/// **A wildcard target is never connected to.**
pub proof fn law_wildcard_is_refused(target: Target)
    requires
        target.host.contains('*'),
    ensures
        approach(target).0 is Over,
        approach(target).1 matches Move::Fail(Failure::Dns(_)),
{
}

/// **The status exchange**: once connected, a ping sends the handshake and the
/// status request, reads one frame within the limit, has its JSON text parsed,
/// and so comes to its status.
pub proof fn law_status_exchange(
    session: Session,
    frame: Vec<u8>,
    json: Seq<u8>,
    status: StatusResponse,
)
    requires
        session.stage is Connecting,
        status_json(frame@) == Ok::<Seq<u8>, Refusal>(json),
    ensures
        ({
            let connected = seq![Event::Connected];
            let greeted = connected.push(Event::Sent);
            let requested = greeted.push(Event::Sent);
            let answered = requested.push(Event::Frame(frame));
            let decoded = answered.push(Event::Decoded(status));
            &&& unfolds(session, decoded)
            &&& last_move(session, connected) == Move::Send(
                framed(
                    handshake_body(
                        session.options.protocol_version,
                        session.address.host@,
                        session.stage->port,
                    ),
                ),
            )
            &&& last_move(session, greeted) == Move::Send(framed(status_request_body()))
            &&& last_move(session, requested) == Move::ReadFrame(session.options.max_frame_size)
            &&& last_move(session, answered) == Move::Decode(json)
            &&& (reached(session, decoded).stage, last_move(session, decoded)) == after_status(
                session.options,
                status,
            )
        }),
{
    let connected = seq![Event::Connected];
    let greeted = connected.push(Event::Sent);
    let requested = greeted.push(Event::Sent);
    let answered = requested.push(Event::Frame(frame));
    let decoded = answered.push(Event::Decoded(status));
    assert(connected.drop_last() =~= Seq::<Event>::empty());
    assert(greeted.drop_last() =~= connected);
    assert(requested.drop_last() =~= greeted);
    assert(answered.drop_last() =~= requested);
    assert(decoded.drop_last() =~= answered);
    assert(reached(session, connected).stage is Greeting);
    assert(reached(session, greeted).stage is Requesting);
    assert(reached(session, requested).stage is AwaitingStatus);
    assert(reached(session, answered).stage is Decoding);
    reveal_with_fuel(unfolds, 6);
}

/// **A bare hostname is looked up**: without a port, with a host that is no IP
/// literal and with the option on, a ping begins by looking up the host's SRV
/// records.
pub proof fn law_bare_hostname_is_looked_up(address: Address, options: PingOptions)
    requires
        address.port is None,
        !is_ip(address.host),
        options.use_srv,
    ensures
        beginning(address, options) == (
            Stage::Resolving,
            Move::Lookup(query_name(address.host)),
        ),
{
}

/// **A target is connected to as it is**, host and port, unless it is a wildcard;
/// that fails the ping with a message that names it.
pub proof fn law_target_is_connected_to(target: Target)
    ensures
        approach(target) == (if target.host.contains('*') {
            (
                Stage::Over,
                Move::Fail(
                    Failure::Dns(
                        "SRV target "@ + debug_text(target.host)
                            + " is a wildcard and cannot be connected to"@,
                    ),
                ),
            )
        } else {
            (Stage::Connecting { port: target.port }, Move::Connect(target.host, target.port))
        }),
{
}

/// **The latency round trip**: whatever the clock says, a ping that has its status
/// sends the time, reads one frame within the limit, and for the pong that echoes
/// what was sent reports the time that has passed.
pub proof fn law_round_trip_yields_the_latency(
    session: Session,
    since_epoch: Option<u128>,
    pong: Vec<u8>,
    latency: Duration,
)
    requires
        session.stage is Stamping,
        pong@ == ping_body(stamp(since_epoch)),
    ensures
        ({
            let timed = seq![Event::Time(since_epoch)];
            let pinged = timed.push(Event::Sent);
            let answered = pinged.push(Event::Frame(pong));
            let measured = answered.push(Event::Elapsed(latency));
            &&& unfolds(session, measured)
            &&& last_move(session, timed) == Move::Send(framed(ping_body(stamp(since_epoch))))
            &&& last_move(session, pinged) == Move::ReadFrame(session.options.max_frame_size)
            &&& last_move(session, answered) == Move::Measure
            &&& last_move(session, measured) == Move::Succeed(
                session.stage.status().unwrap(),
                Some(latency),
            )
            &&& reached(session, measured).stage is Over
        }),
{
    let timed = seq![Event::Time(since_epoch)];
    let pinged = timed.push(Event::Sent);
    let answered = pinged.push(Event::Frame(pong));
    let measured = answered.push(Event::Elapsed(latency));
    assert(timed.drop_last() =~= Seq::<Event>::empty());
    assert(pinged.drop_last() =~= timed);
    assert(answered.drop_last() =~= pinged);
    assert(measured.drop_last() =~= answered);
    law_pong_echoes_the_timestamp(stamp(since_epoch));
    assert(reached(session, timed).stage is Pinging);
    assert(reached(session, pinged).stage is AwaitingPong);
    assert(reached(session, answered).stage is Measuring);
    reveal_with_fuel(unfolds, 5);
}

/// **Any pong will do**: a frame that is one, whatever its timestamp, leads to the
/// measurement, and one that is none costs the latency only.
pub proof fn law_any_pong_is_measured(session: Session, frame: Vec<u8>)
    requires
        session.stage is AwaitingPong,
    ensures
        ({
            let status = session.stage.status().unwrap();
            session.next(Event::Frame(frame)) == (if pong_payload(frame@) is Ok {
                (Stage::Measuring { status }, Move::Measure)
            } else {
                (Stage::Over, Move::Succeed(status, None))
            })
        }),
{
}

/// **A status is reported at once unless the latency is asked for**, and a frame
/// that carries none fails the ping with the reason.
pub proof fn law_status_is_reported(session: Session, status: StatusResponse, frame: Vec<u8>)
    ensures
        session.stage is Decoding ==> session.next(Event::Decoded(status)) == (
        if session.options.measure_latency {
            (Stage::Stamping { status }, Move::ReadClock)
        } else {
            (Stage::Over, Move::Succeed(status, None))
        }),
        session.stage is AwaitingStatus ==> session.next(Event::Frame(frame)) == (match status_json(
            frame@,
        ) {
            Ok(json) => (Stage::Decoding, Move::Decode(json)),
            Err(refusal) => (Stage::Over, Move::Fail(Failure::Refused(refusal))),
        }),
{
}

/// **A ping takes whatever can happen to it**: running out of time at any stage, a
/// failure wherever an action can fail, and each action's own event.
pub proof fn law_ping_takes_what_can_happen(session: Session, error: Error)
    ensures
        session.expects(Event::TimedOut) <==> !(session.stage is Over),
        session.expects(Event::Failed(error)) <==> !(session.stage is Over || session.stage
            is Resolving),
        session.stage is Resolving ==> session.expects(Event::Record(None)),
        session.stage is Connecting ==> session.expects(Event::Connected),
        session.stage is Greeting || session.stage is Requesting || session.stage is Pinging
            ==> session.expects(Event::Sent),
{
}

/// **A ping goes where its address or its record says**: without a lookup to the
/// host of the address, on its port or the default one, and with a record to the
/// record's target and port.
pub proof fn law_ping_goes_where_it_is_sent(
    address: Address,
    options: PingOptions,
    session: Session,
    record: SrvRecord,
)
    ensures
        address.port is Some || is_ip(address.host) || !options.use_srv ==> beginning(
            address,
            options,
        ) == approach(
            Target {
                host: address.host,
                port: match address.port {
                    Some(port) => port,
                    None => 25565,
                },
                used_srv: false,
            },
        ),
        session.stage is Resolving ==> session.next(Event::Record(Some(record))) == approach(
            Target { host: record.target@, port: record.port, used_srv: true },
        ),
        session.stage is Resolving ==> session.next(Event::Record(None)) == approach(
            Target {
                host: session.address.host@,
                port: match session.address.port {
                    Some(port) => port,
                    None => 25565,
                },
                used_srv: false,
            },
        ),
{
}

/// **An action is a move when it says just that**: the same name, host, port, bytes,
/// limit or text, the same status and latency, or the same reason to fail.
pub proof fn law_actions_say_what_they_are(
    action: Action,
    text: Seq<char>,
    port: u16,
    bytes: Seq<u8>,
    limit: u32,
    status: StatusResponse,
    latency: Option<Duration>,
    error: Error,
)
    ensures
        action.is_move(Move::Lookup(text)) <==> (action matches Action::Lookup(name) && name@
            == text),
        action.is_move(Move::Connect(text, port)) <==> (action matches Action::Connect(host, at)
            && host@ == text && at == port),
        action.is_move(Move::Send(bytes)) <==> (action matches Action::Send(found) && found@
            == bytes),
        action.is_move(Move::ReadFrame(limit)) <==> action == Action::ReadFrame(limit),
        action.is_move(Move::Decode(bytes)) <==> (action matches Action::Decode(found) && found@
            == bytes),
        action.is_move(Move::ReadClock) <==> action is ReadClock,
        action.is_move(Move::Measure) <==> action is Measure,
        action.is_move(Move::Succeed(status, latency)) <==> action == Action::Finish(
            Ok(PingResult { status, latency }),
        ),
        action.is_move(Move::Fail(Failure::Error(error))) <==> action == Action::Finish(Err(error)),
        action.is_move(Move::Fail(Failure::Dns(text))) <==> (action matches Action::Finish(
            Err(Error::Dns(message)),
        ) && message@ == text),
{
}

/// **A refusal that ends a ping is the error it ends with**, down to the message.
pub proof fn law_refusals_are_reported_as_they_are(
    error: Error,
    text: Seq<char>,
    expected: u8,
    got: u8,
    len: u32,
    limit: u32,
)
    ensures
        error.says(Refusal::Malformed(text)) <==> (error matches Error::Malformed(message)
            && message@ == text),
        error.says(Refusal::UnexpectedPacket { expected, got }) <==> error
            == (Error::UnexpectedPacket { expected, got }),
        error.says(Refusal::FrameTooLarge { len, limit }) <==> error == (Error::FrameTooLarge {
            len,
            limit,
        }),
        forall|refusal: Refusal| #[trigger]
            (Action::Finish(Err(error))).is_move(Move::Fail(Failure::Refused(refusal)))
                <==> error.says(refusal),
{
}

} // verus!
