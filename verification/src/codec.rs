//! The wire format: an 8-byte big-endian length, then that many payload bytes.

use crate::error::ConnectionError;
use byteorder::{BigEndian, ByteOrder};
use vstd::prelude::*;
use vstd::slice::{slice_subrange, slice_to_vec};

verus! {

/// The number of bytes of a length prefix.
pub const LENGTH_BYTES: usize = 8;

/// 256 to the power of `width`.
pub open spec fn radix_pow(width: nat) -> nat
    decreases width,
{
    if width == 0 {
        1
    } else {
        256 * radix_pow((width - 1) as nat)
    }
}

/// The number that `bytes` spell in big-endian order.
pub open spec fn be_value(bytes: Seq<u8>) -> nat
    decreases bytes.len(),
{
    if bytes.len() == 0 {
        0
    } else {
        256 * be_value(bytes.drop_last()) + bytes.last() as nat
    }
}

/// The `width` low-order base-256 digits of `value`, most significant first.
pub open spec fn be_bytes(value: nat, width: nat) -> Seq<u8>
    decreases width,
{
    if width == 0 {
        Seq::empty()
    } else {
        be_bytes(value / 256, (width - 1) as nat).push((value % 256) as u8)
    }
}

/// The length prefix that announces a payload of `len` bytes.
pub open spec fn length_prefix(len: nat) -> Seq<u8> {
    be_bytes(len, 8)
}

/// A whole frame: the length prefix of `payload`, then `payload`.
pub open spec fn frame(payload: Seq<u8>) -> Seq<u8> {
    length_prefix(payload.len()) + payload
}

/// What a buffer decodes to.
///
/// Fewer than eight bytes, or fewer payload bytes than the prefix announces,
/// is a protocol violation. A length of zero is no frame. Otherwise the
/// frame is the announced number of bytes that follow the prefix.
pub open spec fn decoded(bytes: Seq<u8>) -> Result<Option<Seq<u8>>, ConnectionError> {
    if bytes.len() < 8 {
        Err(ConnectionError::ProtocolViolation)
    } else {
        let len = be_value(bytes.subrange(0, 8));
        if len == 0 {
            Ok(None)
        } else if bytes.len() - 8 < len {
            Err(ConnectionError::ProtocolViolation)
        } else {
            Ok(Some(bytes.subrange(8, 8 + len as int)))
        }
    }
}

/// `be_bytes` yields exactly `width` digits.
pub proof fn lemma_be_bytes_len(value: nat, width: nat)
    ensures
        be_bytes(value, width).len() == width,
    decreases width,
{
    if width > 0 {
        lemma_be_bytes_len(value / 256, (width - 1) as nat);
    }
}

/// Reading back the digits of a number that fits in `width` digits gives the
/// number.
pub proof fn lemma_be_value_of_bytes(value: nat, width: nat)
    requires
        value < radix_pow(width),
    ensures
        be_value(be_bytes(value, width)) == value,
    decreases width,
{
    if width > 0 {
        let rest = be_bytes(value / 256, (width - 1) as nat);
        lemma_be_value_of_bytes(value / 256, (width - 1) as nat);
        assert(be_bytes(value, width).drop_last() =~= rest);
    }
}

/// The number that a byte string spells fits in as many digits.
pub proof fn lemma_be_value_bound(bytes: Seq<u8>)
    ensures
        be_value(bytes) < radix_pow(bytes.len()),
    decreases bytes.len(),
{
    if bytes.len() > 0 {
        lemma_be_value_bound(bytes.drop_last());
    }
}

/// Writing out the number that a byte string spells gives the byte string.
pub proof fn lemma_be_bytes_of_value(bytes: Seq<u8>)
    ensures
        be_bytes(be_value(bytes), bytes.len()) == bytes,
    decreases bytes.len(),
{
    if bytes.len() > 0 {
        lemma_be_bytes_of_value(bytes.drop_last());
        assert(be_bytes(be_value(bytes), bytes.len()) =~= bytes);
    } else {
        assert(be_bytes(be_value(bytes), bytes.len()) =~= bytes);
    }
}

/// Every string of eight bytes is the length prefix of the length that it
/// spells, and that length fits in 64 bits.
pub proof fn lemma_prefix_of_value(bytes: Seq<u8>)
    requires
        bytes.len() == 8,
    ensures
        be_value(bytes) <= u64::MAX,
        length_prefix(be_value(bytes)) == bytes,
{
    lemma_be_value_bound(bytes);
    lemma_radix_pow_eight();
    lemma_be_bytes_of_value(bytes);
}

/// The length that a length prefix spells is the length that it was made
/// for.
pub proof fn lemma_value_of_prefix(len: u64)
    ensures
        length_prefix(len as nat).len() == 8,
        be_value(length_prefix(len as nat)) == len,
{
    lemma_be_bytes_len(len as nat, 8);
    lemma_radix_pow_eight();
    lemma_be_value_of_bytes(len as nat, 8);
}

/// Eight base-256 digits span exactly the 64-bit numbers.
pub proof fn lemma_radix_pow_eight()
    ensures
        radix_pow(8) == 0x1_0000_0000_0000_0000,
{
    reveal_with_fuel(radix_pow, 9);
}

/// Calls `byteorder::BigEndian::write_u64` on a fresh 8-byte buffer: the
/// buffer then holds the eight base-256 digits of `value`, most significant
/// first.
#[verifier::external_body]
fn write_be_u64(value: u64) -> (bytes: Vec<u8>)
    ensures
        bytes@ == be_bytes(value as nat, 8),
{
    let mut bytes = vec![0u8; 8];
    BigEndian::write_u64(&mut bytes, value);
    bytes
}

/// Calls `byteorder::BigEndian::read_u64`, which reads the first eight bytes
/// of `bytes` as a big-endian number and panics on a shorter buffer.
#[verifier::external_body]
fn read_be_u64(bytes: &[u8]) -> (value: u64)
    requires
        bytes@.len() >= 8,
    ensures
        value as nat == be_value(bytes@.subrange(0, 8)),
{
    BigEndian::read_u64(bytes)
}

/// The length prefix for a payload of `len` bytes.
pub fn encode_length(len: u64) -> (prefix: Vec<u8>)
    ensures
        prefix@ == length_prefix(len as nat),
        prefix@.len() == 8,
{
    proof {
        lemma_be_bytes_len(len as nat, 8);
    }
    write_be_u64(len)
}

/// Reads a length prefix. Anything but exactly eight bytes is a protocol
/// violation.
pub fn decode_length(bytes: &[u8]) -> (r: Result<u64, ConnectionError>)
    ensures
        bytes@.len() == 8 ==> r == Ok::<u64, ConnectionError>(be_value(bytes@) as u64),
        bytes@.len() == 8 ==> be_value(bytes@) <= u64::MAX,
        bytes@.len() != 8 ==> r == Err::<u64, ConnectionError>(ConnectionError::ProtocolViolation),
{
    if bytes.len() != LENGTH_BYTES {
        return Err(ConnectionError::ProtocolViolation);
    }
    proof {
        lemma_be_value_bound(bytes@);
        lemma_radix_pow_eight();
        assert(bytes@.subrange(0, 8) =~= bytes@);
    }
    Ok(read_be_u64(bytes))
}

/// Frames a payload: its length prefix, then its bytes.
pub fn encode(payload: &[u8]) -> (bytes: Vec<u8>)
    ensures
        bytes@ == frame(payload@),
{
    let mut bytes = encode_length(payload.len() as u64);
    bytes.extend_from_slice(payload);
    bytes
}

/// Takes a frame out of a buffer that starts with its length prefix.
pub fn decode(bytes: &[u8]) -> (r: Result<Option<Vec<u8>>, ConnectionError>)
    ensures
        match r {
            Ok(Some(payload)) => decoded(bytes@) == Ok::<Option<Seq<u8>>, ConnectionError>(Some(payload@)),
            Ok(None) => decoded(bytes@) == Ok::<Option<Seq<u8>>, ConnectionError>(None),
            Err(e) => decoded(bytes@) == Err::<Option<Seq<u8>>, ConnectionError>(e),
        },
{
    if bytes.len() < LENGTH_BYTES {
        return Err(ConnectionError::ProtocolViolation);
    }
    let len = read_be_u64(bytes);
    if len == 0 {
        return Ok(None);
    }
    let rest: usize = bytes.len() - LENGTH_BYTES;
    if (rest as u64) < len {
        return Err(ConnectionError::ProtocolViolation);
    }
    let end: usize = LENGTH_BYTES + len as usize;
    Ok(Some(slice_to_vec(slice_subrange(bytes, LENGTH_BYTES, end))))
}

/// Decoding an encoded payload gives the payload back, and an empty payload
/// decodes to no frame.
pub proof fn lemma_round_trip(payload: Seq<u8>)
    requires
        payload.len() <= u64::MAX,
    ensures
        payload.len() == 0 ==> decoded(frame(payload)) == Ok::<Option<Seq<u8>>, ConnectionError>(None),
        payload.len() > 0 ==> decoded(frame(payload)) == Ok::<Option<Seq<u8>>, ConnectionError>(Some(payload)),
{
    let bytes = frame(payload);
    lemma_be_bytes_len(payload.len(), 8);
    lemma_radix_pow_eight();
    lemma_be_value_of_bytes(payload.len(), 8);
    assert(bytes.subrange(0, 8) =~= length_prefix(payload.len()));
    assert(bytes.subrange(8, 8 + payload.len() as int) =~= payload);
}

} // verus!
