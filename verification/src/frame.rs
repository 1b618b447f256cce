//! The frames of the extension's protocol: four bytes that hold the length
//! of the payload as an unsigned 32-bit number in the byte order of the
//! machine, then the payload.
//!
//! Which byte order a machine has is not known here. The `byteorder` crate
//! converts in the order of the machine it runs on, and every statement below
//! holds for either order.

use byteorder::{ByteOrder, NativeEndian};
use vstd::endian::{endianness, Endian};
use vstd::prelude::*;

verus! {

/// The four bytes that hold `n` in the byte order `order`.
pub open spec fn u32_bytes(order: Endian, n: u32) -> Seq<u8> {
    let b0 = (n % 256) as u8;
    let b1 = (n / 256 % 256) as u8;
    let b2 = (n / 65536 % 256) as u8;
    let b3 = (n / 16777216) as u8;
    match order {
        Endian::Little => seq![b0, b1, b2, b3],
        Endian::Big => seq![b3, b2, b1, b0],
    }
}

/// The number that the first four bytes of `bytes` hold in the byte order
/// `order`.
pub open spec fn u32_value(order: Endian, bytes: Seq<u8>) -> nat
    recommends
        bytes.len() >= 4,
{
    match order {
        Endian::Little => (bytes[0] + 256 * bytes[1] + 65536 * bytes[2] + 16777216
            * bytes[3]) as nat,
        Endian::Big => (bytes[3] + 256 * bytes[2] + 65536 * bytes[1] + 16777216
            * bytes[0]) as nat,
    }
}

/// A number written in a byte order is read back in that order.
pub proof fn lemma_u32_bytes_value(order: Endian, n: u32)
    ensures
        u32_bytes(order, n).len() == 4,
        u32_value(order, u32_bytes(order, n)) == n,
{
}

/// The digits of a number written to the base 256 are found again by
/// division.
proof fn lemma_digits(a: int, b: int, c: int, d: int)
    requires
        0 <= a < 256,
        0 <= b < 256,
        0 <= c < 256,
        0 <= d < 256,
    ensures
        (a + 256 * b + 65536 * c + 16777216 * d) % 256 == a,
        (a + 256 * b + 65536 * c + 16777216 * d) / 256 % 256 == b,
        (a + 256 * b + 65536 * c + 16777216 * d) / 65536 % 256 == c,
        (a + 256 * b + 65536 * c + 16777216 * d) / 16777216 == d,
{
    let v = a + 256 * b + 65536 * c + 16777216 * d;
    let q1 = b + 256 * c + 65536 * d;
    let q2 = c + 256 * d;
    assert(v == 256 * q1 + a);
    assert(v / 256 == q1 && v % 256 == a) by (nonlinear_arith)
        requires
            v == 256 * q1 + a,
            0 <= a < 256,
    ;
    assert(q1 == 256 * q2 + b);
    assert(q1 / 256 == q2 && q1 % 256 == b) by (nonlinear_arith)
        requires
            q1 == 256 * q2 + b,
            0 <= b < 256,
    ;
    assert(q2 / 256 == d && q2 % 256 == c) by (nonlinear_arith)
        requires
            q2 == 256 * d + c,
            0 <= c < 256,
    ;
    assert(v / 65536 == q2) by (nonlinear_arith)
        requires
            v == 65536 * q2 + (a + 256 * b),
            0 <= a + 256 * b < 65536,
    ;
    assert(v / 16777216 == d) by (nonlinear_arith)
        requires
            v == 16777216 * d + (a + 256 * b + 65536 * c),
            0 <= a + 256 * b + 65536 * c < 16777216,
    ;
}

/// Four bytes hold a number below 2^32, and writing that number gives the
/// four bytes back.
pub proof fn lemma_u32_value_bytes(order: Endian, bytes: Seq<u8>)
    requires
        bytes.len() >= 4,
    ensures
        u32_value(order, bytes) <= u32::MAX,
        u32_bytes(order, u32_value(order, bytes) as u32) == bytes.subrange(0, 4),
{
    match order {
        Endian::Little => {
            lemma_digits(bytes[0] as int, bytes[1] as int, bytes[2] as int, bytes[3] as int);
        },
        Endian::Big => {
            lemma_digits(bytes[3] as int, bytes[2] as int, bytes[1] as int, bytes[0] as int);
        },
    }
    assert(u32_bytes(order, u32_value(order, bytes) as u32) =~= bytes.subrange(0, 4));
}

/// `byteorder::NativeEndian::read_u32`: the number that the first four
/// bytes hold in the byte order of the machine that runs the bridge, for
/// which `vstd::endian::endianness` stands. It panics on fewer than four
/// bytes, which `requires` leaves out.
#[verifier::external_body]
pub(crate) fn native_u32(bytes: &[u8]) -> (n: u32)
    requires
        bytes@.len() >= 4,
    ensures
        n == u32_value(endianness(), bytes@),
{
    NativeEndian::read_u32(bytes)
}

/// `byteorder::NativeEndian::write_u32` on a fresh buffer of four bytes:
/// the bytes that hold `n` in the byte order of the machine that runs the
/// bridge, for which `vstd::endian::endianness` stands.
#[verifier::external_body]
pub(crate) fn native_bytes(n: u32) -> (r: Vec<u8>)
    ensures
        r@ == u32_bytes(endianness(), n),
{
    let mut buf = vec![0u8; 4];
    NativeEndian::write_u32(&mut buf, n);
    buf
}

/// The frame that carries `payload`.
pub open spec fn frame(order: Endian, payload: Seq<u8>) -> Seq<u8>
    recommends
        payload.len() <= u32::MAX,
{
    u32_bytes(order, payload.len() as u32) + payload
}

/// Whether `pending` starts with a whole frame.
pub open spec fn frame_ready(order: Endian, pending: Seq<u8>) -> bool {
    pending.len() >= 4 && pending.len() - 4 >= u32_value(order, pending)
}

/// The payload of the frame that `pending` starts with.
pub open spec fn frame_payload(order: Endian, pending: Seq<u8>) -> Seq<u8>
    recommends
        frame_ready(order, pending),
{
    pending.subrange(4, 4 + u32_value(order, pending) as int)
}

/// What follows the frame that `pending` starts with.
pub open spec fn after_frame(order: Endian, pending: Seq<u8>) -> Seq<u8>
    recommends
        frame_ready(order, pending),
{
    pending.subrange(4 + u32_value(order, pending) as int, pending.len() as int)
}

/// Decoding undoes encoding: a frame, followed by anything, is read back as
/// its payload, and what followed is left over.
pub proof fn lemma_frame_round_trip(order: Endian, payload: Seq<u8>, rest: Seq<u8>)
    requires
        payload.len() <= u32::MAX,
    ensures
        frame_ready(order, frame(order, payload) + rest),
        frame_payload(order, frame(order, payload) + rest) == payload,
        after_frame(order, frame(order, payload) + rest) == rest,
{
    let n = payload.len() as u32;
    let whole = frame(order, payload) + rest;
    lemma_u32_bytes_value(order, n);
    assert(whole.subrange(0, 4) =~= u32_bytes(order, n));
    assert(u32_value(order, whole) == u32_value(order, u32_bytes(order, n))) by {
        assert(whole[0] == u32_bytes(order, n)[0]);
        assert(whole[1] == u32_bytes(order, n)[1]);
        assert(whole[2] == u32_bytes(order, n)[2]);
        assert(whole[3] == u32_bytes(order, n)[3]);
    }
    assert(frame_payload(order, whole) =~= payload);
    assert(after_frame(order, whole) =~= rest);
}

} // verus!
