//! What holds of packets and the frames they travel in.

use crate::error::Refusal;
use crate::protocol::{
    frame_at, framed, handshake_body, length_bytes, lemma_varint_in_prefix, ping_body,
    pong_payload, prefix_of, stamp, status_body, status_json, status_request_body, Frame, Prefix,
};
use crate::text::decimal;
use crate::wire::{
    bad_varint, be_bytes, be_value, law_varint_reads_back, lemma_be_64, lemma_be_bytes,
    lemma_varint_len, power_of_256, signed_64, unsigned_32, unsigned_64, varint_at, varint_bytes,
    varint_len, varint_sum,
};
use vstd::prelude::*;
use vstd::utf8::encode_utf8;

verus! {

/// **A packed frame reads back**: whatever follows it in the stream, its body
/// comes out, and exactly its bytes are used up.
pub proof fn law_packed_frame_reads_back(body: Seq<u8>, rest: Seq<u8>, max_len: u32)
    requires
        body.len() <= max_len,
    ensures
        frame_at(framed(body) + rest, max_len) == Frame::Complete(body, framed(body).len()),
{
    let len = body.len() as u32;
    law_varint_reads_back(len, body + rest);
    let data = framed(body) + rest;
    let n = varint_bytes(len as nat).len();
    assert(data =~= varint_bytes(len as nat) + (body + rest));
    assert(data.subrange(n as int, n + len) =~= body);
}

/// **A frame over the limit is refused by its length alone**, with the length it
/// declares, whether or not any of its body has arrived.
pub proof fn law_oversized_frame_is_refused(len: u32, arrived: Seq<u8>, max_len: u32)
    requires
        len > max_len,
    ensures
        frame_at(length_bytes(len as nat) + arrived, max_len) == Frame::Refused(
            Refusal::FrameTooLarge { len, limit: max_len },
        ),
{
    law_varint_reads_back(len, arrived);
}

/// **A length prefix is given up after five bytes**: five that announce another
/// are refused, whatever follows.
pub proof fn law_endless_prefix_is_refused(data: Seq<u8>, max_len: u32)
    requires
        data.len() >= 5,
        forall|i: int| 0 <= i < 5 ==> #[trigger] data[i] >= 128,
    ensures
        frame_at(data, max_len) == Frame::Refused(
            Refusal::Malformed("frame length VarInt exceeds 5 bytes"@),
        ),
{
    lemma_varint_len(data);
}

/// **What has been read of a stream stands**: once a frame is complete or
/// refused, bytes that arrive later do not change it.
pub proof fn law_later_bytes_change_nothing(data: Seq<u8>, later: Seq<u8>, max_len: u32)
    requires
        !(frame_at(data, max_len) is Incomplete),
    ensures
        frame_at(data + later, max_len) == frame_at(data, max_len),
{
    let all = data + later;
    assert(all.take(data.len() as int) =~= data);
    lemma_varint_in_prefix(all, data.len() as int);
    lemma_varint_len(data);
    match varint_at(data) {
        Some((len, n)) => {
            if n + len <= data.len() {
                assert(all.subrange(n as int, n + len) =~= data.subrange(n as int, n + len));
            }
        },
        None => {
            let head = data.take(5);
            assert(all.take(5) =~= head);
            lemma_varint_in_prefix(data, 5);
            lemma_varint_in_prefix(all, 5);
            lemma_varint_len(head);
        },
    }
}

/// **The JSON text that a status response is built from is what is read out of
/// it.**
pub proof fn law_status_reads_back(json: Seq<u8>)
    requires
        json.len() <= u32::MAX,
    ensures
        status_json(status_body(json)) == Ok::<Seq<u8>, Refusal>(json),
{
    let len = json.len() as u32;
    let body = status_body(json);
    let id = varint_bytes(0);
    let prefix = varint_bytes(len as nat);
    law_varint_reads_back(0, prefix + json);
    assert(body =~= id + (prefix + json));
    law_varint_reads_back(len, json);
    assert(body.skip(id.len() as int) =~= prefix + json);
    let start = id.len() + prefix.len();
    assert(body.subrange(start as int, start + len) =~= json);
}

/// **A pong that echoes a ping carries the timestamp that was sent.**
pub proof fn law_pong_echoes_the_timestamp(timestamp: i64)
    ensures
        pong_payload(ping_body(timestamp)) == Ok::<i64, Refusal>(timestamp),
{
    let payload = be_bytes(unsigned_64(timestamp), 8);
    let body = ping_body(timestamp);
    lemma_be_64(timestamp);
    law_varint_reads_back(1, payload);
    assert(varint_bytes(1) =~= seq![1u8]);
    assert(body =~= varint_bytes(1) + payload);
    assert(body.skip(1) =~= payload);
}

/// **Different timestamps make different pings**, so that a pong answers one.
pub proof fn law_pings_differ(one: i64, other: i64)
    requires
        ping_body(one) == ping_body(other),
    ensures
        one == other,
{
    law_pong_echoes_the_timestamp(one);
    law_pong_echoes_the_timestamp(other);
}

/// **The handshake carries what it was built from**: read in order, it yields
/// its id, the two's complement of the protocol version, the length of the host
/// in bytes, the host, the port and the next state.
pub proof fn law_handshake_carries_its_fields(protocol: i32, host: Seq<char>, port: u16)
    requires
        encode_utf8(host).len() <= u32::MAX,
    ensures
        ({
            let body = handshake_body(protocol, host, port);
            let name = encode_utf8(host);
            let n = varint_bytes(unsigned_32(protocol)).len() as int;
            let m = varint_bytes(name.len()).len() as int;
            let end = 1 + n + m + name.len();
            &&& varint_at(body) == Some((0u32, 1nat))
            &&& varint_at(body.skip(1)) == Some((unsigned_32(protocol) as u32, n as nat))
            &&& varint_at(body.skip(1 + n)) == Some((name.len() as u32, m as nat))
            &&& body.subrange(1 + n + m, end) == name
            &&& be_value(body.subrange(end, end + 2)) == port
            &&& body.skip(end + 2) == seq![1u8]
        }),
{
    let body = handshake_body(protocol, host, port);
    let name = encode_utf8(host);
    let version = varint_bytes(unsigned_32(protocol));
    let len = varint_bytes(name.len());
    let place = be_bytes(port as nat, 2);
    let (n, m) = (version.len() as int, len.len() as int);
    let end = 1 + n + m + name.len();
    let state = varint_bytes(1);
    assert(varint_bytes(0) =~= seq![0u8]);
    assert(state =~= seq![1u8]);
    reveal_with_fuel(power_of_256, 3);
    lemma_be_bytes(port as nat, 2, 0x1_0000);
    let after_name = place + state;
    let after_len = name + after_name;
    let after_version = len + after_len;
    let after_id = version + after_version;
    assert(body =~= varint_bytes(0) + after_id);
    law_varint_reads_back(0, after_id);
    assert(body.skip(1) =~= after_id);
    law_varint_reads_back(unsigned_32(protocol) as u32, after_version);
    assert(body.skip(1 + n) =~= after_version);
    law_varint_reads_back(name.len() as u32, after_len);
    assert(body.subrange(1 + n + m, end) =~= name);
    assert(body.subrange(end, end + 2) =~= place);
    assert(body.skip(end + 2) =~= state);
}

// ─── Numbers ─────────────────────────────────────────────────────────────────

/// **A VarInt is worth the sum of its groups**, seven bits to a byte, the lowest
/// first, up to five bytes, whether or not it could have been shorter. What does
/// not fit 32 bits is dropped, and without an end within five bytes there is none.
pub proof fn law_varint_is_the_sum_of_its_groups(s: Seq<u8>)
    ensures
        s.len() >= 1 && s[0] < 128 ==> varint_at(s) == Some((s[0] as u32, 1nat)),
        s.len() >= 2 && s[0] >= 128 && s[1] < 128 ==> varint_at(s) == Some(
            ((s[0] - 128 + s[1] * 128) as u32, 2nat),
        ),
        s.len() >= 3 && s[0] >= 128 && s[1] >= 128 && s[2] < 128 ==> varint_at(s) == Some(
            ((s[0] - 128 + (s[1] - 128) * 128 + s[2] * 16384) as u32, 3nat),
        ),
        s.len() >= 4 && s[0] >= 128 && s[1] >= 128 && s[2] >= 128 && s[3] < 128 ==> varint_at(s)
            == Some(
            (
                (s[0] - 128 + (s[1] - 128) * 128 + (s[2] - 128) * 16384 + s[3] * 2097152) as u32,
                4nat,
            ),
        ),
        s.len() >= 5 && s[0] >= 128 && s[1] >= 128 && s[2] >= 128 && s[3] >= 128 && s[4] < 128
            ==> varint_at(s) == Some(
            (
                ((s[0] - 128 + (s[1] - 128) * 128 + (s[2] - 128) * 16384 + (s[3] - 128) * 2097152
                    + s[4] * 268435456) % 0x1_0000_0000) as u32,
                5nat,
            ),
        ),
        (forall|i: int| 0 <= i < s.len() && i < 5 ==> #[trigger] s[i] >= 128) ==> varint_at(s)
            is None,
{
    let s1 = s.skip(1);
    let s2 = s1.skip(1);
    let s3 = s2.skip(1);
    let s4 = s3.skip(1);
    assert(s.len() >= 2 ==> s1[0] == s[1]);
    assert(s.len() >= 3 ==> s2[0] == s[2]);
    assert(s.len() >= 4 ==> s3[0] == s[3]);
    assert(s.len() >= 5 ==> s4[0] == s[4]);
    reveal_with_fuel(varint_len, 6);
    reveal_with_fuel(varint_sum, 6);
    if forall|i: int| 0 <= i < s.len() && i < 5 ==> #[trigger] s[i] >= 128 {
        lemma_varint_len(s);
        if let Some(n) = varint_len(s) {
            assert(s[n - 1] < 128);
        }
    }
}

/// **Bytes make up a number with the highest first**: each further byte counts the
/// others for 256 times as much. The bytes of a number make it up again.
pub proof fn law_bytes_count_from_the_highest(s: Seq<u8>, byte: u8, port: u16)
    ensures
        be_value(Seq::<u8>::empty()) == 0,
        be_value(s.push(byte)) == 256 * be_value(s) + byte,
        be_bytes(port as nat, 2).len() == 2,
        be_value(be_bytes(port as nat, 2)) == port,
{
    assert(s.push(byte).drop_last() =~= s);
    reveal_with_fuel(power_of_256, 3);
    lemma_be_bytes(port as nat, 2, 0x1_0000);
}

/// **Two's complement keeps a number up to multiples of the word**, and every word
/// stands for one number.
pub proof fn law_twos_complement(small: i32, large: i64, word: u64)
    ensures
        unsigned_32(small) < 0x1_0000_0000,
        unsigned_32(small) == small || unsigned_32(small) == small + 0x1_0000_0000,
        unsigned_64(large) < 0x1_0000_0000_0000_0000,
        unsigned_64(large) == large || unsigned_64(large) == large + 0x1_0000_0000_0000_0000,
        signed_64(unsigned_64(large)) == large,
        unsigned_64(signed_64(word as nat)) == word,
{
}

/// **The timestamp is the clock's, cut to 64 bits**, and zero without a clock.
pub proof fn law_stamp_is_the_time(nanos: u128)
    ensures
        unsigned_64(stamp(Some(nanos))) == nanos as int % 0x1_0000_0000_0000_0000,
        stamp(None) == 0,
        nanos <= i64::MAX ==> stamp(Some(nanos)) == nanos,
{
}

// ─── More on frames ──────────────────────────────────────────────────────────

/// **A frame is awaited until its last byte is there**: whatever part of a packed
/// frame within the limit has arrived, it is neither complete nor refused.
pub proof fn law_partial_frame_is_awaited(body: Seq<u8>, arrived: int, max_len: u32)
    requires
        body.len() <= max_len,
        0 <= arrived < framed(body).len(),
    ensures
        frame_at(framed(body).take(arrived), max_len) == Frame::Incomplete,
{
    let len = body.len() as u32;
    let prefix = varint_bytes(len as nat);
    let data = framed(body);
    let part = data.take(arrived);
    law_varint_reads_back(len, body);
    lemma_varint_len(data);
    lemma_varint_len(part);
    lemma_varint_in_prefix(data, arrived);
    if varint_len(part) is Some {
        let n = varint_len(part).unwrap();
        assert(part[n - 1] == data[n - 1]);
    } else if arrived >= prefix.len() {
        assert(part[prefix.len() - 1] == data[prefix.len() - 1]);
    }
}

/// **A frame is cut where its prefix says**: the body is the bytes right behind the
/// prefix, as many as it declares, if that is within the limit and they are all
/// there.
pub proof fn law_frame_is_cut_where_declared(data: Seq<u8>, len: u32, n: nat, max_len: u32)
    requires
        varint_at(data) == Some((len, n)),
    ensures
        len > max_len ==> frame_at(data, max_len) == Frame::Refused(
            Refusal::FrameTooLarge { len, limit: max_len },
        ),
        len <= max_len && n + len <= data.len() ==> frame_at(data, max_len) == Frame::Complete(
            data.subrange(n as int, n + len),
            n + len as nat,
        ),
        len <= max_len && n + len > data.len() ==> frame_at(data, max_len) == Frame::Incomplete,
{
}

/// **Reading a prefix byte by byte comes to the same as reading the stream**: what
/// is refused of the one is refused of the other, while it asks for more there is
/// no frame, and behind a complete prefix as many bytes are the body as it says.
pub proof fn law_prefix_agrees_with_the_stream(
    seen: Seq<u8>,
    more: Seq<u8>,
    max_len: u32,
)
    ensures
        prefix_of(seen, max_len) matches Prefix::Refused(refusal) ==> frame_at(
            seen + more,
            max_len,
        ) == Frame::Refused(refusal),
        prefix_of(seen, max_len) is More ==> frame_at(seen, max_len) is Incomplete,
        prefix_of(seen, max_len) matches Prefix::Body(len) ==> (varint_len(seen) == Some(seen.len())
            && more.len() == len ==> frame_at(seen + more, max_len) == Frame::Complete(
            more,
            seen.len() + more.len(),
        )),
{
    let all = seen + more;
    assert(all.take(seen.len() as int) =~= seen);
    lemma_varint_in_prefix(all, seen.len() as int);
    lemma_varint_len(seen);
    if varint_at(seen) is None && seen.len() >= 5 {
        let head = seen.take(5);
        assert(all.take(5) =~= head);
        lemma_varint_in_prefix(seen, 5);
        lemma_varint_in_prefix(all, 5);
        lemma_varint_len(head);
    }
    if let Some((len, n)) = varint_at(seen) {
        if n == seen.len() && more.len() == len {
            assert(all.subrange(n as int, n + len) =~= more);
        }
    }
}

// ─── Refusals ────────────────────────────────────────────────────────────────

/// **A status response of any other id is refused with that id**, cut to a byte; one
/// whose text would end beyond the frame with the lengths; and bytes behind the
/// text do not matter.
pub proof fn law_status_is_judged(id: u32, len: u32, json: Seq<u8>, rest: Seq<u8>)
    ensures
        id != 0 ==> status_json(varint_bytes(id as nat) + rest) == Err::<Seq<u8>, Refusal>(
            Refusal::UnexpectedPacket { expected: 0x00, got: (id % 256) as u8 },
        ),
        json.len() < len ==> status_json(varint_bytes(0) + varint_bytes(len as nat) + json) == Err::<
            Seq<u8>,
            Refusal,
        >(
            Refusal::Malformed(
                "JSON length overruns frame: "@ + decimal(1 + varint_bytes(len as nat).len())
                    + " + "@ + decimal(len as nat) + " > "@ + decimal(
                    1 + varint_bytes(len as nat).len() + json.len(),
                ),
            ),
        ),
        json.len() == len ==> status_json(varint_bytes(0) + varint_bytes(len as nat) + json + rest)
            == Ok::<Seq<u8>, Refusal>(json),
{
    law_varint_reads_back(id, rest);
    let zero = varint_bytes(0);
    assert(zero =~= seq![0u8]);
    let prefix = varint_bytes(len as nat);
    let short = zero + prefix + json;
    law_varint_reads_back(0, prefix + json);
    assert(short =~= zero + (prefix + json));
    law_varint_reads_back(len, json);
    assert(short.skip(1) =~= prefix + json);
    let long = zero + prefix + json + rest;
    law_varint_reads_back(0, prefix + json + rest);
    assert(long =~= zero + (prefix + json + rest));
    law_varint_reads_back(len, json + rest);
    assert(long.skip(1) =~= prefix + (json + rest));
    if json.len() == len {
        let start = (1 + prefix.len()) as int;
        assert(long.subrange(start, start + len) =~= json);
    }
}

/// **A pong is an id of one and eight bytes**: any eight make up its timestamp, any
/// other number of bytes is refused with the number, and any other id with the id.
pub proof fn law_pong_is_judged(id: u32, payload: Seq<u8>)
    ensures
        id != 1 ==> pong_payload(varint_bytes(id as nat) + payload) == Err::<i64, Refusal>(
            Refusal::UnexpectedPacket { expected: 0x01, got: (id % 256) as u8 },
        ),
        payload.len() == 8 ==> pong_payload(varint_bytes(1) + payload) == Ok::<i64, Refusal>(
            signed_64(be_value(payload)),
        ),
        payload.len() != 8 ==> pong_payload(varint_bytes(1) + payload) == Err::<i64, Refusal>(
            Refusal::Malformed("pong payload must be 8 bytes, got "@ + decimal(payload.len())),
        ),
{
    law_varint_reads_back(id, payload);
    law_varint_reads_back(1, payload);
    assert(varint_bytes(1) =~= seq![1u8]);
    assert((varint_bytes(1) + payload).skip(1) =~= payload);
}

/// **A frame that does not begin with a VarInt is refused as such**, by status and
/// pong alike.
pub proof fn law_frame_without_id_is_refused(frame: Seq<u8>)
    requires
        varint_at(frame) is None,
    ensures
        status_json(frame) == Err::<Seq<u8>, Refusal>(bad_varint()),
        pong_payload(frame) == Err::<i64, Refusal>(bad_varint()),
{
}

/// **What is sent is what the protocol asks for**: lengths in front as VarInts, an
/// empty status request of id zero, and a ping of id one with its timestamp in
/// eight bytes.
pub proof fn law_packets_have_their_ids(body: Seq<u8>, timestamp: i64)
    ensures
        body.len() <= u32::MAX ==> framed(body) == varint_bytes(body.len()) + body,
        status_request_body() == seq![0x00u8],
        ping_body(timestamp).len() == 9,
        ping_body(timestamp)[0] == 0x01,
        be_value(ping_body(timestamp).skip(1)) == unsigned_64(timestamp),
{
    lemma_be_64(timestamp);
    assert(ping_body(timestamp).skip(1) =~= be_bytes(unsigned_64(timestamp), 8));
}

} // verus!
