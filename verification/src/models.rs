//! Public data types: server address, options, and parsed status response.

use crate::ip::{canonical_ip, canonical_literal, ipv6_literal, is_ip, is_ipv6};
use crate::json::Value;
use crate::text::{
    chars_of, contains_char, debug_string, debug_text, decimal, find_first, find_last,
    is_white_space, parse_unsigned, push_numeral, string_of, trim_bounds, trimmed, unsigned_value,
    white_space,
};
use std::time::Duration;
use vstd::prelude::*;

verus! {

/// Default Minecraft Java Edition port.
pub const DEFAULT_PORT: u16 = 25565;

/// A server to ping: hostname (or IP literal) plus an optional port.
///
/// Parsed from `"host"`, `"host:port"`, `"[::1]"` and `"[::1]:port"` forms.
///
/// A port that was given is used as-is, including `":25565"`, while an omitted
/// port is a default that SRV resolution may replace with the port of the
/// `_minecraft._tcp.<host>` record.
#[derive(Debug, Clone, PartialEq, Eq)]
pub struct ServerAddress {
    /// Hostname or IP literal. Only the address syntax is checked here; name
    /// resolution happens at connect time.
    pub host: String,
    /// TCP port as given by the caller, or `None` when the input omitted it.
    pub port: Option<u16>,
}

/// The host text and the port of an address.
#[verifier::ext_equal]
pub struct Address {
    pub host: Seq<char>,
    pub port: Option<u16>,
}

impl View for ServerAddress {
    type V = Address;

    open spec fn view(&self) -> Address {
        Address { host: self.host@, port: self.port }
    }
}

/// The port a text denotes: a decimal number that fits a `u16`, with an
/// optional `+` in front.
pub open spec fn port_value(text: Seq<char>) -> Option<u16> {
    match unsigned_value(text, 10) {
        Some(value) => if value <= 0xFFFF {
            Some(value as u16)
        } else {
            None
        },
        None => None,
    }
}

/// The message for a port that is none.
pub open spec fn invalid_port(text: Seq<char>) -> Seq<char> {
    "invalid port "@ + debug_text(text)
}

/// What the bracket form denotes, `t` being the whole text: `[host]` or
/// `[host]:port`, the host being all up to the first `]`.
pub open spec fn bracketed_address(t: Seq<char>) -> Result<Address, Seq<char>> {
    let rest = t.skip(1);
    match rest.index_of_first(']') {
        None => Err("missing ']' in "@ + debug_text(t)),
        Some(i) => {
            let host = rest.take(i);
            let tail = rest.skip(i + 1);
            if host.len() == 0 {
                Err("missing host in "@ + debug_text(t))
            } else if tail.len() == 0 {
                Ok(Address { host, port: None })
            } else if tail[0] != ':' {
                Err("unexpected "@ + debug_text(tail) + " after ']' in "@ + debug_text(t))
            } else {
                match port_value(tail.skip(1)) {
                    Some(port) => Ok(Address { host, port: Some(port) }),
                    None => Err(invalid_port(tail.skip(1))),
                }
            }
        },
    }
}

/// What `host` or `host:port` denotes, `t` being the whole text: whatever
/// follows the last colon is the port, so a host that still holds a colon is
/// malformed.
pub open spec fn plain_address(t: Seq<char>) -> Result<Address, Seq<char>> {
    match t.index_of_last(':') {
        None => Ok(Address { host: t, port: None }),
        Some(i) => {
            let host = t.take(i);
            match port_value(t.skip(i + 1)) {
                None => Err(invalid_port(t.skip(i + 1))),
                Some(port) => if host.len() == 0 {
                    Err("missing host in "@ + debug_text(t))
                } else if host.contains(':') {
                    Err(
                        "invalid host "@ + debug_text(host) + " in "@ + debug_text(t)
                            + ": write IPv6 literals in brackets"@,
                    )
                } else {
                    Ok(Address { host, port: Some(port) })
                },
            }
        },
    }
}

/// The address a text denotes, or the message that says why it denotes none.
/// Whitespace around the text does not count. A bare IP literal, notably IPv6,
/// never carries a port, and is taken in its canonical form.
pub open spec fn address_of(text: Seq<char>) -> Result<Address, Seq<char>> {
    let t = trimmed(text);
    if t.len() == 0 {
        Err("empty address"@)
    } else if t[0] == '[' {
        bracketed_address(t)
    } else if is_ip(t) {
        Ok(Address { host: canonical_ip(t), port: None })
    } else {
        plain_address(t)
    }
}

/// Whether an address would be misread if its host stood without brackets. A
/// colon would be taken for the one before a port, an opening bracket for one
/// around the host, and whitespace at either end of the text for none of it.
pub open spec fn misread(address: Address) -> bool {
    let host = address.host;
    ||| host.contains(':')
    ||| host.len() > 0 && (host[0] == '[' || is_white_space(host[0]))
    ||| host.len() > 0 && address.port is None && is_white_space(host.last())
}

/// Whether an address is written with its host in brackets: the host is an IPv6
/// literal, or would be misread without them and does not itself hold the bracket
/// that closes them.
pub open spec fn bracketed(address: Address) -> bool {
    is_ipv6(address.host) || (misread(address) && !address.host.contains(']'))
}

/// The text of an address: the host, in brackets where it needs them, and the
/// port where one was given.
pub open spec fn address_text(address: Address) -> Seq<char> {
    let host = if bracketed(address) {
        seq!['['] + address.host + seq![']']
    } else {
        address.host
    };
    match address.port {
        Some(port) => host + seq![':'] + decimal(port as nat),
        None => host,
    }
}

/// Whether a parse result is the one expected: the same address, or an error
/// with the same message.
pub open spec fn same_outcome(
    res: Result<ServerAddress, String>,
    expected: Result<Address, Seq<char>>,
) -> bool {
    match expected {
        Ok(address) => res matches Ok(found) && found@ == address,
        Err(message) => res matches Err(found) && found@ == message,
    }
}

impl ServerAddress {
    /// Address with an explicit port: used as-is, never SRV-resolved.
    pub fn new(host: &str, port: u16) -> (res: Self)
        ensures
            res@ == (Address { host: host@, port: Some(port) }),
    {
        ServerAddress { host: host.to_owned(), port: Some(port) }
    }

    /// Address without a port: connects to [`DEFAULT_PORT`], or to the port of
    /// the `_minecraft._tcp.<host>` SRV record when one exists.
    pub fn without_port(host: &str) -> (res: Self)
        ensures
            res@ == (Address { host: host@, port: None }),
    {
        ServerAddress { host: host.to_owned(), port: None }
    }

    /// Port to connect to when no SRV record applies.
    pub fn effective_port(&self) -> (res: u16)
        ensures
            res == (match self.port {
                Some(port) => port,
                None => DEFAULT_PORT,
            }),
    {
        match self.port {
            Some(port) => port,
            None => DEFAULT_PORT,
        }
    }

    /// Whether SRV resolution may replace this address: only a bare hostname
    /// leaves anything for a record to fill in.
    pub fn allows_srv(&self) -> (res: bool)
        ensures
            res == (self.port is None && !is_ip(self.host@)),
    {
        if self.port.is_some() {
            return false;
        }
        let chars = chars_of(self.host.as_str());
        assert(chars@.subrange(0, chars@.len() as int) =~= self.host@);
        canonical_literal(&chars, 0, chars.len()).is_none()
    }

    /// Parses an address.
    pub fn parse(text: &str) -> (res: Result<Self, String>)
        ensures
            same_outcome(res, address_of(text@)),
    {
        let chars = chars_of(text);
        let (start, end) = trim_bounds(&chars);
        let ghost t = trimmed(text@);
        if start == end {
            return Err("empty address".to_owned());
        }
        assert(t[0] == chars@[start as int]);
        // Bracket form handles IPv6 explicitly: "[::1]:25565" or "[::1]".
        if chars[start] == '[' {
            return Self::parse_bracketed(&chars, start, end);
        }
        // A bare IP literal (notably IPv6, as in "::1") never carries a port.
        if let Some(host) = canonical_literal(&chars, start, end) {
            return Ok(ServerAddress { host, port: None });
        }
        Self::parse_plain(&chars, start, end)
    }

    /// Parses the bracket form.
    fn parse_bracketed(chars: &Vec<char>, start: usize, end: usize) -> (res: Result<Self, String>)
        requires
            start < end <= chars@.len(),
            chars@[start as int] == '[',
        ensures
            same_outcome(res, bracketed_address(chars@.subrange(start as int, end as int))),
    {
        let ghost t = chars@.subrange(start as int, end as int);
        let ghost rest = t.skip(1);
        assert(rest =~= chars@.subrange(start + 1, end as int));
        let text = string_of(chars, start, end);
        let close = match find_first(chars, start + 1, end, ']') {
            Some(close) => close,
            None => {
                return Err("missing ']' in ".to_owned().concat(debug_string(text.as_str()).as_str()));
            },
        };
        assert(rest.take(close - start - 1) =~= chars@.subrange(start + 1, close as int));
        assert(rest.skip(close - start) =~= chars@.subrange(close + 1, end as int));
        if close == start + 1 {
            return Err("missing host in ".to_owned().concat(debug_string(text.as_str()).as_str()));
        }
        let host = string_of(chars, start + 1, close);
        if close + 1 == end {
            return Ok(ServerAddress { host, port: None });
        }
        assert(chars@.subrange(close + 1, end as int)[0] == chars@[close + 1]);
        if chars[close + 1] != ':' {
            let tail = string_of(chars, close + 1, end);
            return Err(
                "unexpected ".to_owned().concat(debug_string(tail.as_str()).as_str()).concat(
                    " after ']' in ",
                ).concat(debug_string(text.as_str()).as_str()),
            );
        }
        assert(chars@.subrange(close + 1, end as int).skip(1) =~= chars@.subrange(
            close + 2,
            end as int,
        ));
        match parse_port(string_of(chars, close + 2, end).as_str()) {
            Ok(port) => Ok(ServerAddress { host, port: Some(port) }),
            Err(message) => Err(message),
        }
    }

    /// Parses `host` or `host:port`.
    fn parse_plain(chars: &Vec<char>, start: usize, end: usize) -> (res: Result<Self, String>)
        requires
            start < end <= chars@.len(),
        ensures
            same_outcome(res, plain_address(chars@.subrange(start as int, end as int))),
    {
        let ghost t = chars@.subrange(start as int, end as int);
        let text = string_of(chars, start, end);
        let colon = match find_last(chars, start, end, ':') {
            Some(colon) => colon,
            None => {
                return Ok(ServerAddress { host: text, port: None });
            },
        };
        assert(t.take(colon - start) =~= chars@.subrange(start as int, colon as int));
        assert(t.skip(colon - start + 1) =~= chars@.subrange(colon + 1, end as int));
        let port = match parse_port(string_of(chars, colon + 1, end).as_str()) {
            Ok(port) => port,
            Err(message) => {
                return Err(message);
            },
        };
        let host = string_of(chars, start, colon);
        if start == colon {
            return Err("missing host in ".to_owned().concat(debug_string(text.as_str()).as_str()));
        }
        if contains_char(host.as_str(), ':') {
            return Err(
                "invalid host ".to_owned().concat(debug_string(host.as_str()).as_str()).concat(
                    " in ",
                ).concat(debug_string(text.as_str()).as_str()).concat(
                    ": write IPv6 literals in brackets",
                ),
            );
        }
        Ok(ServerAddress { host, port: Some(port) })
    }

    /// Whether the host is written in brackets.
    fn needs_brackets(&self) -> (res: bool)
        ensures
            res == bracketed(self@),
    {
        let chars = chars_of(self.host.as_str());
        let len: usize = chars.len();
        assert(chars@.subrange(0, len as int) =~= self.host@);
        if ipv6_literal(&chars, 0, len) {
            return true;
        }
        if len == 0 || contains_char(self.host.as_str(), ']') {
            return false;
        }
        contains_char(self.host.as_str(), ':') || chars[0] == '[' || white_space(chars[0]) || (
        self.port.is_none() && white_space(chars[len - 1]))
    }

    /// The text of the address, as it was given. IPv6 literals are bracketed, and
    /// so is any other host that would be misread without.
    ///
    /// Parsing the text of a parsed address yields the same address again. An
    /// address built from a host that no text denotes, such as an empty one or
    /// `"[::1]"` with its brackets, is written all the same, and its text is
    /// another address's or none.
    pub fn to_string(&self) -> (res: String)
        ensures
            res@ == address_text(self@),
    {
        let mut out = String::new();
        if self.needs_brackets() {
            out.push('[');
            out.append(self.host.as_str());
            out.push(']');
            assert(out@ =~= seq!['['] + self.host@ + seq![']']);
        } else {
            out.append(self.host.as_str());
            assert(out@ =~= self.host@);
        }
        if let Some(port) = self.port {
            out.push(':');
            push_numeral(&mut out, port as u64, 10);
        }
        assert(out@ =~= address_text(self@));
        out
    }
}

impl std::str::FromStr for ServerAddress {
    type Err = String;

    fn from_str(s: &str) -> (res: Result<Self, String>)
        ensures
            same_outcome(res, address_of(s@)),
    {
        ServerAddress::parse(s)
    }
}

/// Parse a port number, rejecting empty, non-numeric and out-of-range values.
pub fn parse_port(port: &str) -> (res: Result<u16, String>)
    ensures
        match port_value(port@) {
            Some(value) => res == Ok::<u16, String>(value),
            None => res matches Err(message) && message@ == invalid_port(port@),
        },
{
    let chars = chars_of(port);
    assert(chars@.subrange(0, chars@.len() as int) =~= port@);
    match parse_unsigned(&chars, 0, chars.len(), 10, 0xFFFF) {
        Some(value) => Ok(value as u16),
        None => Err("invalid port ".to_owned().concat(debug_string(port).as_str())),
    }
}

// ─── Options and results ─────────────────────────────────────────────────────

/// How many nanoseconds a `std::time::Duration` spans.
pub uninterp spec fn nanos(duration: Duration) -> nat;

/// Specifies `std::time::Duration::from_secs`: a span of that many whole
/// seconds.
pub assume_specification[ std::time::Duration::from_secs ](secs: u64) -> (res: Duration)
    ensures
        nanos(res) == secs * 1_000_000_000,
;

/// Tunables for a single ping.
#[derive(Debug, PartialEq, Eq)]
pub struct PingOptions {
    /// Protocol version sent in the handshake. `-1` means "latest" and is
    /// accepted by virtually all modern servers. Encoded as a plain unsigned
    /// varint of the two's-complement value.
    pub protocol_version: i32,
    /// Whether to perform the extra ping/pong exchange (packet id `0x01`) and
    /// report the round-trip latency in [`PingResult::latency`]. Best-effort:
    /// a failed or slow exchange leaves the latency `None` without failing the
    /// ping.
    pub measure_latency: bool,
    /// Overall timeout for the whole operation. The status exchange must fit
    /// inside it; the latency round trip only gets whatever time is left, and
    /// running out of it reports [`PingResult::latency`] `None` rather than
    /// [`crate::Error::Timeout`].
    pub timeout: Duration,
    /// Maximum accepted frame size; guards against excessive declared lengths.
    pub max_frame_size: u32,
    /// Whether to attempt `_minecraft._tcp.<host>` SRV lookup. Never applied
    /// to an IP literal or to an address with an explicit port, which are
    /// already complete; on lookup failure the ping falls back to the address
    /// as given.
    pub use_srv: bool,
}

impl Default for PingOptions {
    fn default() -> (res: Self)
        ensures
            res.protocol_version == -1,
            !res.measure_latency,
            nanos(res.timeout) == 5_000_000_000,
            res.max_frame_size == 1024 * 1024,
            res.use_srv,
    {
        PingOptions {
            protocol_version: -1,
            measure_latency: false,
            timeout: Duration::from_secs(5),
            max_frame_size: 1024 * 1024,
            use_srv: true,
        }
    }
}

impl Clone for PingOptions {
    fn clone(&self) -> (res: Self)
        ensures
            res == *self,
    {
        PingOptions {
            protocol_version: self.protocol_version,
            measure_latency: self.measure_latency,
            timeout: self.timeout,
            max_frame_size: self.max_frame_size,
            use_srv: self.use_srv,
        }
    }
}

/// Result of a ping.
#[derive(Debug, Clone, PartialEq)]
pub struct PingResult {
    /// Parsed status response JSON.
    pub status: StatusResponse,
    /// Ping/pong round-trip time.
    ///
    /// `None` when [`PingOptions::measure_latency`] was off, and also when the
    /// round trip failed or ran out of the operation's time: the measurement is
    /// best-effort, so a server that hangs up or ignores the ping still yields
    /// [`PingResult::status`].
    pub latency: Option<Duration>,
}

/// The server's `status` JSON payload.
#[derive(Debug, Clone, PartialEq)]
pub struct StatusResponse {
    pub version: Version,
    pub players: Players,
    /// The MOTD. Either a plain string or a Chat-component object
    /// (`{"text": "..."}` or `{"extra": [...]}`), so it is kept as raw JSON;
    /// [`crate::chat::to_legacy_text`] converts it to `§`-coded legacy text
    /// and [`crate::chat::to_plain_text`] to plain text.
    pub description: Value,
    pub favicon: Option<String>,
    pub enforces_secure_chat: Option<bool>,
    pub previews_chat: Option<bool>,
}

/// What the server runs.
#[derive(Debug, Clone, PartialEq, Eq)]
pub struct Version {
    /// Display name, e.g. `"1.21.4"`.
    pub name: String,
    /// Wire protocol number. `0` if the server omits it.
    pub protocol: i32,
}

/// Who is on the server.
#[derive(Debug, Clone, PartialEq, Eq)]
pub struct Players {
    pub max: u32,
    pub online: u32,
    pub sample: Vec<PlayerSample>,
}

impl Default for Players {
    fn default() -> (res: Self)
        ensures
            res.max == 0,
            res.online == 0,
            res.sample@ == Seq::<PlayerSample>::empty(),
    {
        Players { max: 0, online: 0, sample: Vec::new() }
    }
}

/// A player on the server.
#[derive(Debug, Clone, PartialEq, Eq)]
pub struct PlayerSample {
    pub name: String,
    /// UUID of the player, typically without dashes.
    pub id: String,
}

/// Address actually used after (optional) SRV resolution.
#[derive(Debug, Clone, PartialEq, Eq)]
pub struct ResolvedAddress {
    /// Hostname or IP literal to connect to.
    pub host: String,
    /// Port to connect to (SRV port when a record was used).
    pub port: u16,
    /// Whether an SRV record redirected the connection.
    pub used_srv: bool,
}

} // verus!
