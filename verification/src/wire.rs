//! Values in the encoding of the wire protocol: the compact-size integers
//! that count the coins of a group and index its outputs, and transaction
//! ids.

use vstd::prelude::*;
use crate::error::DecodeError;

verus! {

/// The number that `bytes` hold, least significant byte first.
pub open spec fn le_value(bytes: Seq<u8>) -> nat
    decreases bytes.len(),
{
    if bytes.len() == 0 {
        0
    } else {
        bytes[0] as nat + 256 * le_value(bytes.drop_first())
    }
}

/// The number of bytes that follow the first byte of a compact-size integer.
pub open spec fn compact_size_width(first: u8) -> nat {
    if first < 0xFD {
        0
    } else if first == 0xFD {
        2
    } else if first == 0xFE {
        4
    } else {
        8
    }
}

/// The least value that may be written with `width` bytes after the first.
pub open spec fn compact_size_floor(width: nat) -> nat {
    if width == 2 {
        0xFD
    } else if width == 4 {
        0x1_0000
    } else if width == 8 {
        0x1_0000_0000
    } else {
        0
    }
}

/// What decoding a compact-size integer at the start of `s` gives: its value
/// and the number of bytes it took. A first byte below `0xFD` is the value;
/// `0xFD`, `0xFE` and `0xFF` announce two, four and eight bytes, least
/// significant first, and a value that a shorter form could hold is refused.
pub open spec fn decoded_compact_size(s: Seq<u8>) -> Result<(u64, nat), DecodeError> {
    if s.len() == 0 {
        Err(DecodeError::UnexpectedEof)
    } else {
        let width = compact_size_width(s[0]);
        if s.len() < 1 + width {
            Err(DecodeError::UnexpectedEof)
        } else if width == 0 {
            Ok((s[0] as u64, 1))
        } else {
            let v = le_value(s.subrange(1, 1 + width as int));
            if v < compact_size_floor(width) {
                Err(DecodeError::NonMinimalCompactSize)
            } else {
                Ok((v as u64, 1 + width))
            }
        }
    }
}

/// Calls `bitcoin::consensus::encode::deserialize_partial` for a
/// `bitcoin::VarInt`. Trusted: the call decodes one compact-size integer as
/// [`decoded_compact_size`] says, reports the number of bytes read, fails
/// with the crate's non-minimal error exactly on an over-long form, and with
/// an end-of-input error exactly when the slice is too short.
#[verifier::external_body]
fn read_compact_size(data: &[u8]) -> (r: Result<(u64, usize), DecodeError>)
    ensures
        match r {
            Ok((v, n)) => decoded_compact_size(data@) == Ok::<(u64, nat), DecodeError>(
                (v, n as nat),
            ),
            Err(e) => decoded_compact_size(data@) == Err::<(u64, nat), DecodeError>(e),
        },
{
    match bitcoin::consensus::encode::deserialize_partial::<bitcoin::VarInt>(data) {
        Ok((value, read)) => Ok((value.0, read)),
        Err(bitcoin::consensus::encode::Error::NonMinimalVarInt) => Err(
            DecodeError::NonMinimalCompactSize,
        ),
        Err(_) => Err(DecodeError::UnexpectedEof),
    }
}

/// Decodes one compact-size integer from the start of `data`, and says how
/// many bytes it took.
pub fn decode_compact_size(data: &[u8]) -> (r: Result<(u64, usize), DecodeError>)
    ensures
        match r {
            Ok((v, n)) => decoded_compact_size(data@) == Ok::<(u64, nat), DecodeError>(
                (v, n as nat),
            ) && 0 < n <= data@.len(),
            Err(e) => decoded_compact_size(data@) == Err::<(u64, nat), DecodeError>(e),
        },
{
    read_compact_size(data)
}

/// The sixteen lower-case hexadecimal digits.
pub open spec fn hex_digit(n: int) -> char {
    seq!['0', '1', '2', '3', '4', '5', '6', '7', '8', '9', 'a', 'b', 'c', 'd', 'e', 'f'][n]
}

/// `bytes` in lower-case hexadecimal, two digits per byte, in order.
pub open spec fn hex_lower(bytes: Seq<u8>) -> Seq<char> {
    Seq::new(
        2 * bytes.len(),
        |i: int|
            if i % 2 == 0 {
                hex_digit(bytes[i / 2] as int / 16)
            } else {
                hex_digit(bytes[i / 2] as int % 16)
            },
    )
}

/// The text form of a transaction id: its bytes in reverse order, in
/// lower-case hexadecimal.
pub open spec fn txid_text(bytes: Seq<u8>) -> Seq<char> {
    hex_lower(bytes.reverse())
}

/// Formats a `bitcoin::Txid` made of `bytes` with its `Display`, through
/// `to_string`. Trusted: the text is the 32 bytes in reverse order, each as
/// two lower-case hexadecimal digits.
#[verifier::external_body]
pub(crate) fn txid_to_string(bytes: [u8; 32]) -> (text: String)
    ensures
        text@ == txid_text(bytes@),
{
    <bitcoin::Txid as bitcoin::hashes::Hash>::from_byte_array(bytes).to_string()
}

/// What reading a transaction id at the start of `s` gives: its 32 bytes.
pub open spec fn decoded_txid(s: Seq<u8>) -> Result<(Seq<u8>, nat), DecodeError> {
    if s.len() < 32 {
        Err(DecodeError::UnexpectedEof)
    } else {
        Ok((s.take(32), 32))
    }
}

/// 256 to the power `n`.
pub open spec fn pow256(n: nat) -> nat
    decreases n,
{
    if n == 0 {
        1
    } else {
        256 * pow256((n - 1) as nat)
    }
}

/// A number of `n` bytes is below `256^n`.
pub proof fn lemma_le_value_bound(bytes: Seq<u8>)
    ensures
        le_value(bytes) < pow256(bytes.len()),
    decreases bytes.len(),
{
    if bytes.len() > 0 {
        lemma_le_value_bound(bytes.drop_first());
    }
}

/// Reads the number that the `width` bytes from `start` on hold, least
/// significant byte first.
pub fn read_le(data: &[u8], start: usize, width: usize) -> (value: u64)
    requires
        width <= 8,
        start + width <= data@.len(),
    ensures
        value == le_value(data@.subrange(start as int, start + width)),
{
    let ghost end = start + width;
    let len = data.len();
    let mut value: u64 = 0;
    let mut i: usize = width;
    assert(data@.subrange(end, end) =~= Seq::<u8>::empty());
    while i > 0
        invariant
            i <= width <= 8,
            end == start + width,
            end <= data@.len() == len,
            value == le_value(data@.subrange(start + i, end)),
        decreases i,
    {
        proof {
            let tail = data@.subrange(start + i, end);
            let more = data@.subrange(start + i - 1, end);
            assert(more.drop_first() =~= tail);
            lemma_le_value_bound(tail);
            reveal_with_fuel(pow256, 9);
            assert(pow256(tail.len()) <= pow256(7)) by {
                lemma_pow256_monotonic(tail.len(), 7);
            }
        }
        i = i - 1;
        value = value * 256 + data[start + i] as u64;
    }
    value
}

/// The powers of 256 grow with the exponent.
pub proof fn lemma_pow256_monotonic(a: nat, b: nat)
    requires
        a <= b,
    ensures
        pow256(a) <= pow256(b),
    decreases b,
{
    if a < b {
        lemma_pow256_monotonic(a, (b - 1) as nat);
    }
}

/// Copies the `N` bytes from `start` on.
pub fn read_array<const N: usize>(data: &[u8], start: usize) -> (out: [u8; N])
    requires
        start + N <= data@.len(),
    ensures
        out@ == data@.subrange(start as int, start + N),
{
    let len = data.len();
    let mut out: [u8; N] = [0u8;N];
    let mut i: usize = 0;
    while i < N
        invariant
            i <= N,
            start + N <= data@.len() == len,
            forall|j: int| 0 <= j < i ==> out@[j] == data@[start + j],
        decreases N - i,
    {
        out[i] = data[start + i];
        i = i + 1;
    }
    assert(out@ =~= data@.subrange(start as int, start + N));
    out
}

/// Reads the 32 bytes of a transaction id from the start of `data`.
pub fn decode_txid(data: &[u8]) -> (r: Result<([u8; 32], usize), DecodeError>)
    ensures
        match r {
            Ok((id, n)) => decoded_txid(data@) == Ok::<(Seq<u8>, nat), DecodeError>(
                (id@, n as nat),
            ) && n == 32 <= data@.len(),
            Err(e) => decoded_txid(data@) == Err::<(Seq<u8>, nat), DecodeError>(e),
        },
{
    if data.len() < 32 {
        return Err(DecodeError::UnexpectedEof);
    }
    let id: [u8; 32] = read_array(data, 0);
    assert(data@.subrange(0, 32) =~= data@.take(32));
    Ok((id, 32))
}

} // verus!
