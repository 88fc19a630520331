//! The snapshot's own variable-length integers: seven bits per byte, most
//! significant group first, the eighth bit marking that another byte
//! follows, and one added for every continuation so that no value has two
//! encodings. This is not the compact-size integer of the wire protocol.

use vstd::prelude::*;
use crate::error::DecodeError;

verus! {

/// The value accumulated over `bytes`: each byte shifts the value by seven
/// bits and adds its low seven bits, and a byte with the continuation bit
/// adds one more.
pub open spec fn varint_value(bytes: Seq<u8>) -> nat
    decreases bytes.len(),
{
    if bytes.len() == 0 {
        0
    } else {
        let b = bytes.last();
        128 * varint_value(bytes.drop_last()) + (b % 128) as nat + if b >= 128 {
            1nat
        } else {
            0nat
        }
    }
}

/// The number of bytes that an integer at the start of `s` takes: up to and
/// including the first byte without the continuation bit, or all of `s`
/// where every byte has it.
pub open spec fn varint_len(s: Seq<u8>) -> nat
    decreases s.len(),
{
    if s.len() == 0 {
        0
    } else if s[0] < 128 {
        1
    } else {
        1 + varint_len(s.drop_first())
    }
}

/// What decoding an integer at the start of `s` gives: its value and the
/// number of bytes it took.
///
/// The accumulator has no bound of its own, so a value beyond 64 bits is an
/// error of its own kind, reported as soon as the bytes read so far exceed
/// the bound, whether or not the integer is complete. Input that ends before
/// a byte without the continuation bit is otherwise an unexpected end.
pub open spec fn decoded_varint(s: Seq<u8>) -> Result<(u64, nat), DecodeError> {
    let run = s.take(varint_len(s) as int);
    if varint_value(run) > u64::MAX {
        Err(DecodeError::VarintOverflow)
    } else if run.len() == 0 || run.last() >= 128 {
        Err(DecodeError::UnexpectedEof)
    } else {
        Ok((varint_value(run) as u64, run.len()))
    }
}

/// The continuation bytes over which the value `n` is accumulated; none for
/// zero.
pub open spec fn continuation_run(n: nat) -> Seq<u8>
    decreases n,
{
    if n == 0 {
        Seq::empty()
    } else {
        continuation_run(((n - 1) / 128) as nat).push((128 + (n - 1) % 128) as u8)
    }
}

/// The encoding of `x`.
pub open spec fn encoded_varint(x: nat) -> Seq<u8> {
    continuation_run(x / 128).push((x % 128) as u8)
}

/// An integer takes at least one byte where there is one and no more than
/// there are; every byte before its last has the continuation bit, and its
/// last has none unless the input ends there.
pub proof fn lemma_varint_len_bounds(s: Seq<u8>)
    ensures
        varint_len(s) <= s.len(),
        s.len() > 0 ==> varint_len(s) > 0,
        forall|j: int| 0 <= j < varint_len(s) - 1 ==> s[j] >= 128,
        varint_len(s) < s.len() ==> s[varint_len(s) - 1] < 128,
    decreases s.len(),
{
    if s.len() > 0 && s[0] >= 128 {
        let t = s.drop_first();
        lemma_varint_len_bounds(t);
        assert forall|j: int| 0 <= j < varint_len(s) - 1 implies s[j] >= 128 by {
            if j > 0 {
                assert(s[j] == t[j - 1]);
            }
        }
        if varint_len(s) < s.len() {
            assert(s[varint_len(s) - 1] == t[varint_len(t) - 1]);
        }
    }
}

/// Over a run of continuation bytes the integer extends into what follows.
pub proof fn lemma_varint_len_after_continuations(a: Seq<u8>, b: Seq<u8>)
    requires
        forall|j: int| 0 <= j < a.len() ==> a[j] >= 128,
    ensures
        varint_len(a + b) == a.len() + varint_len(b),
    decreases a.len(),
{
    if a.len() == 0 {
        assert(a + b =~= b);
    } else {
        let s = a + b;
        assert(s[0] == a[0]);
        assert(s.drop_first() =~= a.drop_first() + b);
        lemma_varint_len_after_continuations(a.drop_first(), b);
    }
}

/// Reading more bytes never lowers the accumulated value.
pub proof fn lemma_varint_value_monotonic(s: Seq<u8>, i: int, j: int)
    requires
        0 <= i <= j <= s.len(),
    ensures
        varint_value(s.take(i)) <= varint_value(s.take(j)),
    decreases j - i,
{
    if i < j {
        lemma_varint_value_monotonic(s, i, j - 1);
        assert(s.take(j).drop_last() =~= s.take(j - 1));
    }
}

/// Decodes one integer from the start of `data`, and says how many bytes it
/// took.
pub fn decode_varint(data: &[u8]) -> (r: Result<(u64, usize), DecodeError>)
    ensures
        match r {
            Ok((v, n)) => decoded_varint(data@) == Ok::<(u64, nat), DecodeError>((v, n as nat))
                && 0 < n <= data@.len(),
            Err(e) => decoded_varint(data@) == Err::<(u64, nat), DecodeError>(e),
        },
{
    let mut acc: u64 = 0;
    let mut i: usize = 0;
    proof {
        lemma_varint_len_bounds(data@);
    }
    while i < data.len()
        invariant
            i <= data.len(),
            forall|j: int| 0 <= j < i ==> data@[j] >= 128,
            acc == varint_value(data@.take(i as int)),
        decreases data.len() - i,
    {
        let b: u8 = data[i];
        let low: u8 = b & 0x7f;
        let more: bool = b & 0x80 != 0;
        proof {
            assert(b & 0x7f == b % 128) by (bit_vector);
            assert((b & 0x80 != 0) == (b >= 128)) by (bit_vector);
            let s = data@;
            let next = s.take(i + 1);
            assert(next.drop_last() =~= s.take(i as int));
            assert(next.last() == b);
            // The integer reaches at least as far as the byte just read.
            let head = s.take(i as int);
            let tail = s.skip(i as int);
            assert(head + tail =~= s);
            lemma_varint_len_after_continuations(head, tail);
            assert(tail[0] == b);
            if b >= 128 {
                lemma_varint_len_bounds(tail.drop_first());
            }
            lemma_varint_len_bounds(s);
            lemma_varint_value_monotonic(s, i + 1, varint_len(s) as int);
        }
        let bump: u64 = if more {
            1
        } else {
            0
        };
        if acc > (u64::MAX - low as u64 - bump) / 128 {
            return Err(DecodeError::VarintOverflow);
        }
        acc = acc * 128 + low as u64 + bump;
        i = i + 1;
        if !more {
            return Ok((acc, i));
        }
    }
    proof {
        let s = data@;
        assert(s.take(s.len() as int) =~= s);
        lemma_varint_len_after_continuations(s, Seq::empty());
        assert(s + Seq::<u8>::empty() =~= s);
    }
    Err(DecodeError::UnexpectedEof)
}

/// A run of continuation bytes accumulates the value it was made for, and
/// every byte of it has the continuation bit.
pub proof fn lemma_continuation_run(n: nat)
    ensures
        varint_value(continuation_run(n)) == n,
        forall|j: int| 0 <= j < continuation_run(n).len() ==> continuation_run(n)[j] >= 128,
    decreases n,
{
    if n > 0 {
        let prev = ((n - 1) / 128) as nat;
        let b = (128 + (n - 1) % 128) as u8;
        lemma_continuation_run(prev);
        let run = continuation_run(n);
        assert(run.drop_last() =~= continuation_run(prev));
        assert(run.last() == b);
    }
}

/// Decoding undoes encoding: an encoded 64-bit integer, whatever follows it,
/// decodes to itself and takes exactly the bytes of its encoding.
pub proof fn lemma_decode_encode(x: u64, rest: Seq<u8>)
    ensures
        decoded_varint(encoded_varint(x as nat) + rest) == Ok::<(u64, nat), DecodeError>(
            (x, encoded_varint(x as nat).len()),
        ),
{
    let head = continuation_run(x as nat / 128);
    let last = (x as nat % 128) as u8;
    let enc = encoded_varint(x as nat);
    let s = enc + rest;
    lemma_continuation_run(x as nat / 128);
    assert(s =~= head + (seq![last] + rest));
    lemma_varint_len_after_continuations(head, seq![last] + rest);
    assert((seq![last] + rest)[0] == last);
    assert(varint_len(s) == enc.len());
    assert(s.take(enc.len() as int) =~= enc);
    assert(enc.drop_last() =~= head);
}

/// Encodes a 64-bit integer.
pub fn encode_varint(x: u64) -> (out: Vec<u8>)
    ensures
        out@ == encoded_varint(x as nat),
        decoded_varint(out@) == Ok::<(u64, nat), DecodeError>((x, out@.len())),
{
    // The bytes are produced last first.
    let mut rev: Vec<u8> = Vec::new();
    rev.push((x % 128) as u8);
    let mut n: u64 = x / 128;
    while n > 0
        invariant
            rev@.len() > 0,
            encoded_varint(x as nat) == continuation_run(n as nat) + rev@.reverse(),
        decreases n,
    {
        let b: u8 = (128 + (n - 1) % 128) as u8;
        proof {
            let prev = ((n - 1) / 128) as nat;
            assert(continuation_run(n as nat) == continuation_run(prev).push(b));
            assert(rev@.push(b).reverse() =~= seq![b] + rev@.reverse());
            assert(continuation_run(prev).push(b) + rev@.reverse() =~= continuation_run(prev) + (
            seq![b] + rev@.reverse()));
        }
        rev.push(b);
        n = (n - 1) / 128;
    }
    let mut out: Vec<u8> = Vec::new();
    let mut i: usize = rev.len();
    while i > 0
        invariant
            i <= rev@.len(),
            out@ == rev@.reverse().take(rev@.len() - i),
        decreases i,
    {
        i = i - 1;
        out.push(rev[i]);
        proof {
            let r = rev@.reverse();
            let k = rev@.len() - i;
            assert(r.take(k) =~= r.take(k - 1).push(r[k - 1]));
        }
    }
    proof {
        let r = rev@.reverse();
        assert(r.take(r.len() as int) =~= r);
        assert(continuation_run(0) + r =~= r);
        lemma_decode_encode(x, Seq::empty());
        assert(out@ + Seq::<u8>::empty() =~= out@);
    }
    out
}

} // verus!
