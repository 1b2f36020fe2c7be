//! VarInts and the other numbers of the wire format.
//!
//! A VarInt holds a 32-bit number in groups of seven bits, the lowest first;
//! the top bit of each byte says whether another follows. Minecraft writes the
//! two's complement of a negative number this way, so only the unsigned methods
//! of the `varint` crate fit: its signed ones are zigzag-coded.

use crate::error::{Error, Refusal};
use std::io::Cursor;
use varint::{VarintRead, VarintWrite};
use vstd::prelude::*;

verus! {

/// The most bytes a VarInt can occupy.
pub const MAX_VARINT_BYTES: usize = 5;

// ─── VarInts ─────────────────────────────────────────────────────────────────

/// The VarInt of a number: groups of seven bits, lowest first, all but the last
/// with the top bit set.
pub open spec fn varint_bytes(value: nat) -> Seq<u8>
    decreases value,
{
    if value < 128 {
        seq![value as u8]
    } else {
        seq![(value % 128 + 128) as u8] + varint_bytes(value / 128)
    }
}

/// How many bytes the VarInt at the front of `s` has: up to and with the first
/// whose top bit is clear.
pub open spec fn varint_len(s: Seq<u8>) -> Option<nat>
    decreases s.len(),
{
    if s.len() == 0 {
        None
    } else if s[0] < 128 {
        Some(1)
    } else {
        match varint_len(s.skip(1)) {
            Some(n) => Some(n + 1),
            None => None,
        }
    }
}

/// The number that the groups at the front of `s` make up, of any size.
pub open spec fn varint_sum(s: Seq<u8>) -> nat
    decreases s.len(),
{
    if s.len() == 0 {
        0
    } else if s[0] < 128 {
        s[0] as nat
    } else {
        (s[0] - 128) as nat + 128 * varint_sum(s.skip(1))
    }
}

/// The VarInt at the front of `s` and how many bytes it has, if it ends within
/// [`MAX_VARINT_BYTES`]. What does not fit 32 bits is dropped.
pub open spec fn varint_at(s: Seq<u8>) -> Option<(u32, nat)> {
    match varint_len(s) {
        Some(n) => if n <= MAX_VARINT_BYTES {
            Some(((varint_sum(s) % 0x1_0000_0000) as u32, n))
        } else {
            None
        },
        None => None,
    }
}

/// Writes a VarInt with `VarintWrite::write_unsigned_varint_32` of the `varint`
/// crate, into an empty `Cursor<Vec<u8>>`. Claims that the write, to a buffer
/// that grows as needed, succeeds and leaves the seven-bit groups of the number
/// and nothing else.
#[verifier::external_body]
fn encode_varint(value: u32) -> (res: Result<Vec<u8>, std::io::Error>)
    ensures
        res is Ok,
        res->Ok_0@ == varint_bytes(value as nat),
{
    let mut cursor = Cursor::new(Vec::new());
    cursor.write_unsigned_varint_32(value)?;
    Ok(cursor.into_inner())
}

/// Reads a VarInt with `VarintRead::read_unsigned_varint_32` of the `varint`
/// crate, from the start of a `Cursor<Vec<u8>>`. Claims that it returns the
/// number whose groups stand at the front, cut to 32 bits, and that it fails
/// with this message if the bytes end before the VarInt does. The crate's loop
/// shifts by seven bits more for each byte and has no cap of its own, so no more
/// bytes are handed to it than a 32-bit number can occupy.
#[verifier::external_body]
fn decode_varint(window: Vec<u8>) -> (res: Result<u32, String>)
    requires
        window@.len() <= MAX_VARINT_BYTES,
    ensures
        res is Ok <==> varint_len(window@) is Some,
        res is Ok ==> res->Ok_0 == varint_sum(window@) % 0x1_0000_0000,
        res is Err ==> res->Err_0@ == "Could not read one byte (end of stream?)"@,
{
    Cursor::new(window).read_unsigned_varint_32().map_err(|e| e.to_string())
}

/// Appends a VarInt.
pub fn write_varint(out: &mut Vec<u8>, value: u32) -> (res: Result<(), Error>)
    ensures
        res is Ok,
        final(out)@ == old(out)@ + varint_bytes(value as nat),
{
    match encode_varint(value) {
        Ok(bytes) => {
            out.extend_from_slice(bytes.as_slice());
            Ok(())
        },
        Err(e) => Err(Error::Io(e)),
    }
}

/// A VarInt has at most as many bytes as the text it stands in.
pub proof fn lemma_varint_len(s: Seq<u8>)
    ensures
        match varint_len(s) {
            Some(n) => 1 <= n <= s.len() && s[n - 1] < 128 && forall|i: int|
                0 <= i < n - 1 ==> #[trigger] s[i] >= 128,
            None => forall|i: int| 0 <= i < s.len() ==> #[trigger] s[i] >= 128,
        },
    decreases s.len(),
{
    if s.len() > 0 && s[0] >= 128 {
        let rest = s.skip(1);
        lemma_varint_len(rest);
        match varint_len(rest) {
            Some(n) => {
                assert(rest[n - 1] == s[n as int]);
                assert forall|i: int| 0 <= i < n implies #[trigger] s[i] >= 128 by {
                    if i > 0 {
                        assert(s[i] == rest[i - 1]);
                    }
                }
            },
            None => {
                assert forall|i: int| 0 <= i < s.len() implies #[trigger] s[i] >= 128 by {
                    if i > 0 {
                        assert(s[i] == rest[i - 1]);
                    }
                }
            },
        }
    }
}

/// The bytes up to the end of a VarInt say all about it.
pub proof fn lemma_varint_prefix(s: Seq<u8>, n: nat)
    requires
        varint_len(s) == Some(n),
    ensures
        varint_len(s.take(n as int)) == Some(n),
        varint_sum(s.take(n as int)) == varint_sum(s),
    decreases s.len(),
{
    lemma_varint_len(s);
    let t = s.take(n as int);
    if s[0] >= 128 {
        let rest = s.skip(1);
        let m = (n - 1) as nat;
        lemma_varint_prefix(rest, m);
        assert(t.skip(1) =~= rest.take(m as int));
    }
}

/// Where the first byte with a clear top bit stands, the VarInt ends.
proof fn lemma_varint_ends(s: Seq<u8>, n: nat)
    requires
        1 <= n <= s.len(),
        s[n - 1] < 128,
        forall|i: int| 0 <= i < n - 1 ==> #[trigger] s[i] >= 128,
    ensures
        varint_len(s) == Some(n),
{
    lemma_varint_len(s);
    if let Some(m) = varint_len(s) {
        if m < n {
            assert(s[m - 1] >= 128);
        } else if m > n {
            assert(s[n - 1] >= 128);
        }
    } else {
        assert(s[n - 1] >= 128);
    }
}

/// Reads the VarInt at `from` and returns it with the place where it ends.
///
/// At most [`MAX_VARINT_BYTES`] bytes are looked at: this never reads beyond
/// the VarInt and never panics on hostile input.
pub fn read_varint(data: &[u8], from: usize) -> (res: Result<(u32, usize), Error>)
    requires
        from <= data@.len(),
    ensures
        match varint_at(data@.skip(from as int)) {
            Some((value, n)) => res matches Ok((v, end)) && v == value && end == from + n,
            None => res matches Err(e) && e.says(bad_varint()),
        },
        res matches Ok((_, end)) ==> from < end <= data@.len(),
{
    let ghost rest = data@.skip(from as int);
    let mut window: Vec<u8> = Vec::new();
    let mut i: usize = from;
    let mut more: bool = true;
    while more && i < data.len() && i - from < MAX_VARINT_BYTES
        invariant
            from <= i <= data@.len(),
            i - from <= MAX_VARINT_BYTES,
            rest == data@.skip(from as int),
            window@ == rest.take(i - from),
            more ==> forall|k: int| 0 <= k < i - from ==> #[trigger] rest[k] >= 128,
            !more ==> varint_len(rest) == Some((i - from) as nat),
        decreases data@.len() - i,
    {
        let byte: u8 = data[i];
        assert(rest[i - from] == byte);
        window.push(byte);
        i = i + 1;
        assert(window@ =~= rest.take(i - from));
        if byte & 0x80 == 0 {
            more = false;
            proof {
                assert(byte < 128) by (bit_vector)
                    requires
                        byte & 0x80 == 0,
                ;
                lemma_varint_ends(rest, (i - from) as nat);
            }
        } else {
            assert(byte >= 128) by (bit_vector)
                requires
                    byte & 0x80 != 0,
            ;
        }
    }
    proof {
        lemma_varint_len(rest);
        lemma_varint_len(window@);
        if more {
            // Nothing but continuation bytes, in the window and before any end.
            if let Some(n) = varint_len(rest) {
                assert(n > i - from);
            }
            if let Some(n) = varint_len(window@) {
                assert(window@[n - 1] == rest[n - 1]);
            }
        } else {
            lemma_varint_prefix(rest, (i - from) as nat);
        }
    }
    match decode_varint(window) {
        Ok(value) => Ok((value, i)),
        Err(message) => Err(Error::Malformed("bad VarInt: ".to_owned().concat(message.as_str()))),
    }
}

/// How bytes without a VarInt are refused.
pub open spec fn bad_varint() -> Refusal {
    Refusal::Malformed("bad VarInt: "@ + "Could not read one byte (end of stream?)"@)
}

/// **A VarInt reads back as the number it was written for**, whatever follows
/// it, and takes up at most five bytes.
pub proof fn law_varint_reads_back(value: u32, rest: Seq<u8>)
    ensures
        varint_at(varint_bytes(value as nat) + rest) == Some(
            (value, varint_bytes(value as nat).len()),
        ),
        1 <= varint_bytes(value as nat).len() <= MAX_VARINT_BYTES,
{
    lemma_varint_round_trip(value as nat, rest);
    reveal_with_fuel(varint_bytes, 6);
}

/// A written VarInt ends where it was ended and sums to its number.
proof fn lemma_varint_round_trip(value: nat, rest: Seq<u8>)
    ensures
        varint_len(varint_bytes(value) + rest) == Some(varint_bytes(value).len()),
        varint_sum(varint_bytes(value) + rest) == value,
    decreases value,
{
    let s = varint_bytes(value) + rest;
    if value >= 128 {
        lemma_varint_round_trip(value / 128, rest);
        assert(s.skip(1) =~= varint_bytes(value / 128) + rest);
        assert(s[0] == value % 128 + 128);
    } else {
        assert(s[0] == value);
    }
}

// ─── Fixed-width numbers ─────────────────────────────────────────────────────

/// The two's complement of a number in 32 bits.
pub open spec fn unsigned_32(value: i32) -> nat {
    if value < 0 {
        (value + 0x1_0000_0000) as nat
    } else {
        value as nat
    }
}

/// The two's complement of a number in 64 bits.
pub open spec fn unsigned_64(value: i64) -> nat {
    if value < 0 {
        (value + 0x1_0000_0000_0000_0000) as nat
    } else {
        value as nat
    }
}

/// The number whose two's complement in 64 bits this is.
pub open spec fn signed_64(value: nat) -> i64 {
    if value < 0x8000_0000_0000_0000 {
        value as i64
    } else {
        (value - 0x1_0000_0000_0000_0000) as i64
    }
}

/// The lowest `n` bytes of a number, the highest of them first.
pub open spec fn be_bytes(value: nat, n: nat) -> Seq<u8>
    decreases n,
{
    if n == 0 {
        Seq::empty()
    } else {
        be_bytes(value / 256, (n - 1) as nat).push((value % 256) as u8)
    }
}

/// The number that bytes make up, the highest first.
pub open spec fn be_value(s: Seq<u8>) -> nat
    decreases s.len(),
{
    if s.len() == 0 {
        0
    } else {
        256 * be_value(s.drop_last()) + s.last() as nat
    }
}

/// Appends the lowest `n` bytes of a number, the highest of them first.
pub fn write_be(out: &mut Vec<u8>, value: u64, n: usize)
    ensures
        final(out)@ == old(out)@ + be_bytes(value as nat, n as nat),
    decreases n,
{
    let ghost before = out@;
    if n > 0 {
        write_be(out, value / 256, n - 1);
        out.push((value % 256) as u8);
    }
    assert(out@ =~= before + be_bytes(value as nat, n as nat));
}

/// Reads a number of eight bytes, the highest first.
pub fn read_be_64(data: &[u8], from: usize) -> (res: u64)
    requires
        from + 8 <= data@.len(),
    ensures
        res == be_value(data@.subrange(from as int, from + 8)),
{
    let end: usize = data.len();
    let mut value: u64 = 0;
    let mut i: usize = 0;
    let ghost mut bound: int = 1;
    let ghost s = data@.subrange(from as int, from + 8);
    assert(s.take(0) =~= Seq::<u8>::empty());
    while i < 8
        invariant
            i <= 8,
            from + 8 <= end == data@.len(),
            s == data@.subrange(from as int, from + 8),
            value == be_value(s.take(i as int)),
            value < bound,
            bound == (match i {
                0 => 1int,
                1 => 0x100,
                2 => 0x1_0000,
                3 => 0x100_0000,
                4 => 0x1_0000_0000,
                5 => 0x100_0000_0000,
                6 => 0x1_0000_0000_0000,
                7 => 0x100_0000_0000_0000,
                _ => 0x1_0000_0000_0000_0000,
            }),
        decreases 8 - i,
    {
        assert(s.take(i + 1).drop_last() =~= s.take(i as int));
        value = 256 * value + data[from + i] as u64;
        i = i + 1;
        proof {
            bound = 256 * bound;
        }
    }
    assert(s.take(8) =~= s);
    value
}

/// The two's complement of a number, as the cast gives it.
pub fn to_unsigned_32(value: i32) -> (res: u32)
    ensures
        res == unsigned_32(value),
{
    assert(value < 0 ==> value as u32 == value + 0x1_0000_0000) by (bit_vector);
    assert(value >= 0 ==> value as u32 == value) by (bit_vector);
    value as u32
}

/// The two's complement of a number, as the cast gives it.
pub fn to_unsigned_64(value: i64) -> (res: u64)
    ensures
        res == unsigned_64(value),
{
    assert(value < 0 ==> value as u64 == value + 0x1_0000_0000_0000_0000) by (bit_vector);
    assert(value >= 0 ==> value as u64 == value) by (bit_vector);
    value as u64
}

/// The number whose two's complement this is.
pub fn to_signed_64(value: u64) -> (res: i64)
    ensures
        res == signed_64(value as nat),
{
    assert(value < 0x8000_0000_0000_0000 ==> value as i64 == value) by (bit_vector);
    assert(value >= 0x8000_0000_0000_0000 ==> value as i64 == value - 0x1_0000_0000_0000_0000)
        by (bit_vector);
    value as i64
}

/// The bytes of a number make it up again.
pub proof fn lemma_be_bytes(value: nat, n: nat, bound: nat)
    requires
        bound == power_of_256(n),
        value < bound,
    ensures
        be_bytes(value, n).len() == n,
        be_value(be_bytes(value, n)) == value,
    decreases n,
{
    if n > 0 {
        let rest = power_of_256((n - 1) as nat);
        assert(value / 256 < rest);
        lemma_be_bytes(value / 256, (n - 1) as nat, rest);
        assert(be_bytes(value, n).drop_last() =~= be_bytes(value / 256, (n - 1) as nat));
    }
}

/// 256 to the power of `n`.
pub open spec fn power_of_256(n: nat) -> nat
    decreases n,
{
    if n == 0 {
        1
    } else {
        256 * power_of_256((n - 1) as nat)
    }
}

/// A number of 64 bits reads back from its bytes.
pub proof fn lemma_be_64(value: i64)
    ensures
        signed_64(unsigned_64(value)) == value,
        be_bytes(unsigned_64(value), 8).len() == 8,
        be_value(be_bytes(unsigned_64(value), 8)) == unsigned_64(value),
{
    reveal_with_fuel(power_of_256, 9);
    lemma_be_bytes(unsigned_64(value), 8, 0x1_0000_0000_0000_0000);
}

} // verus!
