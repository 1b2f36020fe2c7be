//! Wire protocol encode/decode for the modern (1.7+) server list ping.
//!
//! ```text
//! Client → Server: Handshake   (0x00) protocol_version, host, port, state=1
//! Client → Server: Status req  (0x00, empty)
//! Server → Client: Status resp (0x00) JSON string
//! Client → Server: Ping        (0x01) i64 timestamp (big-endian)
//! Server → Client: Pong        (0x01) same i64
//! ```
//!
//! Every packet is prefixed with a VarInt frame length.

use crate::error::{Error, Refusal};
use crate::text::{decimal, push_numeral};
use crate::wire::{
    bad_varint, be_bytes, be_value, lemma_varint_len, lemma_varint_prefix, read_be_64, read_varint,
    signed_64, to_signed_64, to_unsigned_32, to_unsigned_64, unsigned_32, unsigned_64, varint_at,
    varint_bytes, varint_len, varint_sum, write_be, write_varint, MAX_VARINT_BYTES,
};
use vstd::prelude::*;
use vstd::utf8::encode_utf8;

verus! {

// ─── Encoding ────────────────────────────────────────────────────────────────

/// A length as a VarInt carries it: the lowest 32 bits.
pub open spec fn length_bytes(len: nat) -> Seq<u8> {
    varint_bytes(len % 0x1_0000_0000)
}

/// A packet with its length in front.
pub open spec fn framed(body: Seq<u8>) -> Seq<u8> {
    length_bytes(body.len()) + body
}

/// The body of the handshake packet: its id, the protocol version in two's
/// complement, the host with its length in bytes, the port, and the next state,
/// which is status.
pub open spec fn handshake_body(protocol: i32, host: Seq<char>, port: u16) -> Seq<u8> {
    varint_bytes(0x00) + varint_bytes(unsigned_32(protocol)) + length_bytes(encode_utf8(host).len())
        + encode_utf8(host) + be_bytes(port as nat, 2) + varint_bytes(1)
}

/// The body of the status request packet: its id.
pub open spec fn status_request_body() -> Seq<u8> {
    seq![0x00u8]
}

/// The body of the status response packet: its id and the JSON text with its
/// length in bytes.
pub open spec fn status_body(json: Seq<u8>) -> Seq<u8> {
    varint_bytes(0x00) + length_bytes(json.len()) + json
}

/// The body of a ping packet and of the pong that answers it: the id and the
/// timestamp.
pub open spec fn ping_body(timestamp: i64) -> Seq<u8> {
    seq![0x01u8] + be_bytes(unsigned_64(timestamp), 8)
}

/// Appends a length.
fn write_length(out: &mut Vec<u8>, len: usize) -> (res: Result<(), Error>)
    ensures
        res is Ok,
        final(out)@ == old(out)@ + length_bytes(len as nat),
{
    assert(len as u32 == (len as u64) % 0x1_0000_0000u64) by (bit_vector);
    write_varint(out, len as u32)
}

/// Puts the length in front of a packet.
pub fn pack_frame(body: &[u8]) -> (res: Result<Vec<u8>, Error>)
    ensures
        res is Ok,
        res->Ok_0@ == framed(body@),
{
    let mut frame: Vec<u8> = Vec::new();
    write_length(&mut frame, body.len())?;
    frame.extend_from_slice(body);
    assert(frame@ =~= framed(body@));
    Ok(frame)
}

/// Build the handshake packet, already framed (length prefix included).
///
/// `host` is the address the *user* typed: after SRV resolution the target may
/// differ, but the handshake must still carry the original hostname so the
/// server can do virtual hosting.
pub fn build_handshake(protocol: i32, host: &str, port: u16) -> (res: Result<Vec<u8>, Error>)
    ensures
        res is Ok,
        res->Ok_0@ == framed(handshake_body(protocol, host@, port)),
{
    let mut body: Vec<u8> = Vec::new();
    write_varint(&mut body, 0x00)?;
    write_varint(&mut body, to_unsigned_32(protocol))?;
    let name = host.as_bytes();
    write_length(&mut body, name.len())?;
    body.extend_from_slice(name);
    write_be(&mut body, port as u64, 2);
    write_varint(&mut body, 1)?;
    assert(body@ =~= handshake_body(protocol, host@, port));
    pack_frame(body.as_slice())
}

/// Build the status request packet: `0x00` with empty body.
pub fn build_status_request() -> (res: Result<Vec<u8>, Error>)
    ensures
        res is Ok,
        res->Ok_0@ == framed(status_request_body()),
{
    let mut body: Vec<u8> = Vec::new();
    body.push(0x00);
    assert(body@ =~= status_request_body());
    pack_frame(body.as_slice())
}

/// Build a status response packet: `0x00` followed by the JSON text. This is
/// what a server answers with.
pub fn build_status_frame(json: &str) -> (res: Result<Vec<u8>, Error>)
    ensures
        res is Ok,
        res->Ok_0@ == framed(status_body(encode_utf8(json@))),
{
    let mut body: Vec<u8> = Vec::new();
    write_varint(&mut body, 0x00)?;
    let text = json.as_bytes();
    write_length(&mut body, text.len())?;
    body.extend_from_slice(text);
    assert(body@ =~= status_body(encode_utf8(json@)));
    pack_frame(body.as_slice())
}

/// Build the ping packet: `0x01` followed by the i64 timestamp (big-endian).
pub fn build_ping_packet(timestamp: i64) -> (res: Result<Vec<u8>, Error>)
    ensures
        res is Ok,
        res->Ok_0@ == framed(ping_body(timestamp)),
{
    let mut body: Vec<u8> = Vec::new();
    body.push(0x01);
    write_be(&mut body, to_unsigned_64(timestamp), 8);
    assert(body@ =~= ping_body(timestamp));
    pack_frame(body.as_slice())
}

/// The nanoseconds since the Unix epoch, cut to 64 bits, or zero for a clock that
/// stands before the epoch.
pub open spec fn stamp(since_epoch: Option<u128>) -> i64 {
    match since_epoch {
        Some(nanos) => signed_64(nanos as nat % 0x1_0000_0000_0000_0000),
        None => 0,
    }
}

/// The opaque i64 payload of the ping/pong exchange, from the wall-clock time in
/// nanoseconds since the Unix epoch. The protocol does not interpret it.
pub fn now_nanos(since_epoch: Option<u128>) -> (res: i64)
    ensures
        res == stamp(since_epoch),
{
    match since_epoch {
        Some(nanos) => {
            assert(nanos as u64 == nanos % 0x1_0000_0000_0000_0000u128) by (bit_vector);
            to_signed_64(nanos as u64)
        },
        None => 0,
    }
}

// ─── Decoding ────────────────────────────────────────────────────────────────

/// What the bytes of a frame-length prefix amount to.
pub enum Prefix {
    /// The prefix goes on: another byte is needed.
    More,
    /// The body has this many bytes.
    Body(u32),
    Refused(Refusal),
}

/// What a frame-length prefix amounts to after the bytes `seen`. It is a VarInt
/// of at most five bytes, for a length of at most `max_len`.
pub open spec fn prefix_of(seen: Seq<u8>, max_len: u32) -> Prefix {
    match varint_at(seen) {
        Some((len, _)) => if len > max_len {
            Prefix::Refused(Refusal::FrameTooLarge { len, limit: max_len })
        } else {
            Prefix::Body(len)
        },
        None => if seen.len() < MAX_VARINT_BYTES {
            Prefix::More
        } else {
            Prefix::Refused(Refusal::Malformed("frame length VarInt exceeds 5 bytes"@))
        },
    }
}

/// Reads a frame-length prefix byte by byte, as the bytes arrive.
///
/// This is the only VarInt that does not go through the `varint` crate, which
/// reads from a `std::io` stream only.
pub struct FrameReader {
    value: u32,
    taken: u32,
    max_len: u32,
    seen: Ghost<Seq<u8>>,
}

impl FrameReader {
    /// The bytes read so far.
    pub closed spec fn seen(self) -> Seq<u8> {
        self.seen@
    }

    /// The longest body that is accepted.
    pub closed spec fn limit(self) -> u32 {
        self.max_len
    }

    /// Whether the reader is in the middle of a prefix: all bytes so far announced
    /// another, and their groups are summed up.
    pub closed spec fn wf(self) -> bool {
        &&& self.taken == self.seen@.len()
        &&& self.taken < MAX_VARINT_BYTES
        &&& self.value == varint_sum(self.seen@)
        &&& forall|i: int| 0 <= i < self.seen@.len() ==> #[trigger] self.seen@[i] >= 128
    }

    /// A reader at the start of a frame.
    pub fn new(max_len: u32) -> (res: Self)
        ensures
            res.wf(),
            res.seen() == Seq::<u8>::empty(),
            res.limit() == max_len,
    {
        FrameReader { value: 0, taken: 0, max_len, seen: Ghost(Seq::empty()) }
    }

    /// Takes the next byte of the prefix. Returns the length of the body once the
    /// prefix is complete, and `None` as long as it is not.
    pub fn take_byte(&mut self, byte: u8) -> (res: Result<Option<u32>, Error>)
        requires
            old(self).wf(),
        ensures
            final(self).seen() == old(self).seen().push(byte),
            final(self).limit() == old(self).limit(),
            match prefix_of(final(self).seen(), old(self).limit()) {
                Prefix::More => res == Ok::<Option<u32>, Error>(None) && final(self).wf(),
                Prefix::Body(len) => res == Ok::<Option<u32>, Error>(Some(len)),
                Prefix::Refused(refusal) => res matches Err(e) && e.says(refusal),
            },
    {
        let ghost before = self.seen@;
        let ghost after = before.push(byte);
        let low: u32 = (byte & 0x7F) as u32;
        let shifted: u32 = low << (7 * self.taken);
        proof {
            lemma_sum_push(before, byte);
            lemma_low_group(self.value, byte, self.taken);
        }
        self.value = self.value | shifted;
        self.taken = self.taken + 1;
        self.seen = Ghost(after);
        proof {
            lemma_varint_len(after);
            assert(after[before.len() as int] == byte);
            assert forall|i: int| 0 <= i < before.len() implies #[trigger] after[i] >= 128 by {
                assert(after[i] == before[i]);
            }
        }
        if byte & 0x80 == 0 {
            assert(byte < 128) by (bit_vector)
                requires
                    byte & 0x80 == 0,
            ;
            if self.value > self.max_len {
                return Err(Error::FrameTooLarge { len: self.value, limit: self.max_len });
            }
            return Ok(Some(self.value));
        }
        assert(byte >= 128) by (bit_vector)
            requires
                byte & 0x80 != 0,
        ;
        if self.taken == 5 {
            return Err(Error::Malformed("frame length VarInt exceeds 5 bytes".to_owned()));
        }
        Ok(None)
    }
}

/// The worth of the group at position `n`.
pub open spec fn group_worth(n: nat) -> nat
    decreases n,
{
    if n == 0 {
        1
    } else {
        128 * group_worth((n - 1) as nat)
    }
}

/// One more byte adds its group.
proof fn lemma_sum_push(s: Seq<u8>, byte: u8)
    requires
        forall|i: int| 0 <= i < s.len() ==> #[trigger] s[i] >= 128,
    ensures
        varint_sum(s.push(byte)) == varint_sum(s) + (byte as nat % 128) * group_worth(s.len()),
        varint_sum(s) < group_worth(s.len()),
    decreases s.len(),
{
    let t = s.push(byte);
    if s.len() == 0 {
        assert(t.skip(1) =~= Seq::<u8>::empty());
        assert(varint_sum(t.skip(1)) == 0);
        assert(t[0] == byte);
        assert(group_worth(s.len()) == 1);
        assert((byte as nat % 128) * 1 == byte as nat % 128);
    } else {
        let rest = s.skip(1);
        lemma_sum_push(rest, byte);
        assert(t.skip(1) =~= rest.push(byte));
        assert(t[0] == s[0]);
        let b = byte as nat % 128;
        let w = group_worth(rest.len());
        assert(group_worth(s.len()) == 128 * w);
        assert(128 * (b * w) == b * (128 * w)) by (nonlinear_arith);
    }
}

/// Joining a group by its bits is adding its worth, cut to 32 bits.
proof fn lemma_low_group(value: u32, byte: u8, taken: u32)
    requires
        taken < 5,
        value < group_worth(taken as nat),
    ensures
        (value | (((byte & 0x7F) as u32) << (7 * taken) as u32)) == (value + (byte as nat % 128)
            * group_worth(taken as nat)) % 0x1_0000_0000,
        taken < 4 ==> value + (byte as nat % 128) * group_worth(taken as nat) < 0x1_0000_0000,
{
    reveal_with_fuel(group_worth, 5);
    if taken == 0 {
        assert((value | (((byte & 0x7F) as u32) << 0u32)) == value + (byte % 128) * 1)
            by (bit_vector)
            requires
                value < 1,
        ;
    } else if taken == 1 {
        assert((value | (((byte & 0x7F) as u32) << 7u32)) == value + (byte % 128) * 0x80)
            by (bit_vector)
            requires
                value < 0x80,
        ;
    } else if taken == 2 {
        assert((value | (((byte & 0x7F) as u32) << 14u32)) == value + (byte % 128) * 0x4000)
            by (bit_vector)
            requires
                value < 0x4000,
        ;
    } else if taken == 3 {
        assert((value | (((byte & 0x7F) as u32) << 21u32)) == value + (byte % 128) * 0x20_0000)
            by (bit_vector)
            requires
                value < 0x20_0000,
        ;
    } else {
        assert((value | (((byte & 0x7F) as u32) << 28u32)) == ((value as u64) + ((byte % 128) as u64)
            * 0x1000_0000u64) as u64 % 0x1_0000_0000u64) by (bit_vector)
            requires
                value < 0x1000_0000,
        ;
    }
}

/// What the bytes of a stream hold of its first frame.
pub enum Frame {
    /// The frame is not complete: the stream has more to give.
    Incomplete,
    /// The frame's body, and how many bytes prefix and body take up.
    Complete(Seq<u8>, nat),
    Refused(Refusal),
}

/// The first frame of a stream: a length of at most `max_len`, and that many
/// bytes. A prefix is judged as soon as it is there, before the body is.
pub open spec fn frame_at(data: Seq<u8>, max_len: u32) -> Frame {
    match varint_at(data) {
        Some((len, n)) => if len > max_len {
            Frame::Refused(Refusal::FrameTooLarge { len, limit: max_len })
        } else if n + len <= data.len() {
            Frame::Complete(data.subrange(n as int, n + len), n + len as nat)
        } else {
            Frame::Incomplete
        },
        None => if data.len() < MAX_VARINT_BYTES {
            Frame::Incomplete
        } else {
            Frame::Refused(Refusal::Malformed("frame length VarInt exceeds 5 bytes"@))
        },
    }
}

/// A VarInt that a prefix of the bytes holds is the one that all of them hold.
pub proof fn lemma_varint_in_prefix(s: Seq<u8>, k: int)
    requires
        0 <= k <= s.len(),
    ensures
        varint_len(s.take(k)) is Some ==> varint_at(s) == varint_at(s.take(k)),
        varint_len(s.take(k)) is None && (k == s.len() || k == MAX_VARINT_BYTES) ==> varint_at(s)
            is None,
{
    let t = s.take(k);
    lemma_varint_len(s);
    lemma_varint_len(t);
    match varint_len(t) {
        Some(n) => {
            assert(s[n - 1] == t[n - 1]);
            let m = varint_len(s).unwrap();
            if varint_len(s) is None {
                assert(s[n - 1] >= 128);
            } else if m < n {
                assert(t[m - 1] == s[m - 1]);
            } else if m > n {
                assert(s[n - 1] >= 128);
            }
            lemma_varint_prefix(s, n);
            lemma_varint_prefix(t, n);
            assert(t.take(n as int) =~= s.take(n as int));
        },
        None => {
            if let Some(m) = varint_len(s) {
                if m <= k {
                    assert(t[m - 1] == s[m - 1]);
                }
            }
        },
    }
}

/// Reads the first frame of the bytes that a stream has given so far. Returns
/// its body and how many bytes it took, `None` while it is not complete, and
/// the refusal as soon as its length prefix is refused.
pub fn read_frame(data: &[u8], max_len: u32) -> (res: Result<Option<(Vec<u8>, usize)>, Error>)
    ensures
        match frame_at(data@, max_len) {
            Frame::Incomplete => res matches Ok(None),
            Frame::Complete(body, used) => res matches Ok(Some((found, end))) && found@ == body
                && end == used,
            Frame::Refused(refusal) => res matches Err(e) && e.says(refusal),
        },
{
    let mut reader = FrameReader::new(max_len);
    let mut i: usize = 0;
    assert(data@.take(0) =~= Seq::<u8>::empty());
    while i < data.len()
        invariant
            i <= data@.len(),
            i < MAX_VARINT_BYTES,
            reader.wf(),
            reader.seen() == data@.take(i as int),
            reader.limit() == max_len,
            varint_len(data@.take(i as int)) is None,
        decreases data@.len() - i,
    {
        let step = reader.take_byte(data[i]);
        i = i + 1;
        assert(reader.seen() =~= data@.take(i as int));
        proof {
            lemma_varint_len(data@.take(i as int));
            lemma_varint_in_prefix(data@, i as int);
        }
        match step {
            Err(e) => {
                return Err(e);
            },
            Ok(Some(len)) => {
                return Ok(read_frame_body(data, i, len));
            },
            Ok(None) => {},
        }
    }
    proof {
        lemma_varint_in_prefix(data@, i as int);
    }
    Ok(None)
}

/// Takes the body of a frame, `len` bytes from `from` on, if all are there.
fn read_frame_body(data: &[u8], from: usize, len: u32) -> (res: Option<(Vec<u8>, usize)>)
    requires
        from <= data@.len(),
    ensures
        match res {
            Some((body, end)) => end == from + len && end <= data@.len() && body@ == data@.subrange(
                from as int,
                end as int,
            ),
            None => from + len > data@.len(),
        },
{
    if (len as u64) > (data.len() - from) as u64 {
        return None;
    }
    let end: usize = from + len as usize;
    Some((copy_range(data, from, end), end))
}

/// The bytes from `from` up to `to`.
fn copy_range(data: &[u8], from: usize, to: usize) -> (res: Vec<u8>)
    requires
        from <= to <= data@.len(),
    ensures
        res@ == data@.subrange(from as int, to as int),
{
    let mut out: Vec<u8> = Vec::new();
    let mut i: usize = from;
    while i < to
        invariant
            from <= i <= to <= data@.len(),
            out@ == data@.subrange(from as int, i as int),
        decreases to - i,
    {
        out.push(data[i]);
        i = i + 1;
        assert(out@ =~= data@.subrange(from as int, i as int));
    }
    out
}

/// The JSON text that a status response frame carries, or why it carries none:
/// the id must be `0x00`, and the text must end within the frame.
pub open spec fn status_json(frame: Seq<u8>) -> Result<Seq<u8>, Refusal> {
    match varint_at(frame) {
        None => Err(bad_varint()),
        Some((id, n)) => if id != 0x00 {
            Err(Refusal::UnexpectedPacket { expected: 0x00, got: (id % 256) as u8 })
        } else {
            match varint_at(frame.skip(n as int)) {
                None => Err(bad_varint()),
                Some((len, m)) => {
                    let start = n + m;
                    if start + len <= frame.len() {
                        Ok(frame.subrange(start as int, start + len))
                    } else {
                        Err(Refusal::Malformed(overrun_message(start, len as nat, frame.len())))
                    }
                },
            }
        },
    }
}

/// The message for a JSON text that would end beyond its frame.
pub open spec fn overrun_message(start: nat, json_len: nat, frame_len: nat) -> Seq<char> {
    "JSON length overruns frame: "@ + decimal(start) + " + "@ + decimal(json_len) + " > "@
        + decimal(frame_len)
}

/// Parse a status response frame down to the JSON text it carries.
pub fn parse_status_frame(frame: &[u8]) -> (res: Result<Vec<u8>, Error>)
    ensures
        match status_json(frame@) {
            Ok(json) => res matches Ok(found) && found@ == json,
            Err(refusal) => res matches Err(e) && e.says(refusal),
        },
{
    assert(frame@.skip(0) =~= frame@);
    let (id, after_id) = match read_varint(frame, 0) {
        Ok(read) => read,
        Err(e) => {
            return Err(e);
        },
    };
    if id != 0x00 {
        assert(id as u8 == id % 256) by (bit_vector);
        return Err(Error::UnexpectedPacket { expected: 0x00, got: id as u8 });
    }
    let (json_len, start) = match read_varint(frame, after_id) {
        Ok(read) => read,
        Err(e) => {
            return Err(e);
        },
    };
    if (json_len as u64) > (frame.len() - start) as u64 {
        let mut message = "JSON length overruns frame: ".to_owned();
        push_numeral(&mut message, start as u64, 10);
        message.append(" + ");
        push_numeral(&mut message, json_len as u64, 10);
        message.append(" > ");
        push_numeral(&mut message, frame.len() as u64, 10);
        assert(message@ =~= overrun_message(start as nat, json_len as nat, frame@.len()));
        return Err(Error::Malformed(message));
    }
    Ok(copy_range(frame, start, start + json_len as usize))
}

/// The timestamp that a pong frame carries, or why it carries none: the id must
/// be `0x01`, and eight bytes must follow.
pub open spec fn pong_payload(frame: Seq<u8>) -> Result<i64, Refusal> {
    match varint_at(frame) {
        None => Err(bad_varint()),
        Some((id, n)) => {
            let payload = frame.skip(n as int);
            if id != 0x01 {
                Err(Refusal::UnexpectedPacket { expected: 0x01, got: (id % 256) as u8 })
            } else if payload.len() != 8 {
                Err(
                    Refusal::Malformed(
                        "pong payload must be 8 bytes, got "@ + decimal(payload.len()),
                    ),
                )
            } else {
                Ok(signed_64(be_value(payload)))
            }
        },
    }
}

/// Parse a pong frame, returning the echoed i64 timestamp.
pub fn parse_pong_frame(frame: &[u8]) -> (res: Result<i64, Error>)
    ensures
        match pong_payload(frame@) {
            Ok(timestamp) => res == Ok::<i64, Error>(timestamp),
            Err(refusal) => res matches Err(e) && e.says(refusal),
        },
{
    assert(frame@.skip(0) =~= frame@);
    let (id, start) = match read_varint(frame, 0) {
        Ok(read) => read,
        Err(e) => {
            return Err(e);
        },
    };
    if id != 0x01 {
        assert(id as u8 == id % 256) by (bit_vector);
        return Err(Error::UnexpectedPacket { expected: 0x01, got: id as u8 });
    }
    let len: usize = frame.len() - start;
    if len != 8 {
        let mut message = "pong payload must be 8 bytes, got ".to_owned();
        push_numeral(&mut message, len as u64, 10);
        return Err(Error::Malformed(message));
    }
    assert(frame@.subrange(start as int, start + 8) =~= frame@.skip(start as int));
    Ok(to_signed_64(read_be_64(frame, start)))
}

} // verus!
