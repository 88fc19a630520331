//! The pass over a snapshot: rows are decoded one by one, buffered, and
//! flushed as sorted row groups.

use vstd::prelude::*;
use crate::batch::{is_rearrangement, sorted_by_script, too_large, Batch};
use crate::error::DecodeError;
use crate::snapshot::{
    decode_header,
    decoded_header,
    decoded_row,
    decoded_rows,
    decoded_snapshot,
    lemma_decoded_rows_fail,
    lemma_decoded_rows_len,
    lemma_decoded_rows_prefix,
    DecoderState,
    HeaderView,
    RowView,
    SnapshotHeader,
    StreamDecoder,
};

verus! {

/// Whether a buffer of `buffered` rows is flushed once `done` of `total`
/// rows have been decoded: when it has reached `threshold` rows, or when the
/// last row of the run has just been added.
pub open spec fn flush_due(buffered: nat, done: nat, total: nat, threshold: nat) -> bool {
    buffered >= threshold || done == total
}

/// The driver of one pass: the stream decoder, the buffer of rows decoded
/// and not yet flushed, and the count of rows decoded so far.
pub struct Converter {
    decoder: StreamDecoder,
    batch: Batch,
    done: u64,
    total: u64,
    threshold: usize,
}

impl Converter {
    /// Where the stream decoder stands.
    pub closed spec fn state(&self) -> DecoderState {
        self.decoder@
    }

    /// The rows decoded and not yet flushed.
    pub closed spec fn buffered(&self) -> Seq<RowView> {
        self.batch@
    }

    /// The number of rows decoded so far.
    pub closed spec fn done(&self) -> nat {
        self.done as nat
    }

    /// The number of rows of the run.
    pub closed spec fn total(&self) -> nat {
        self.total as nat
    }

    /// The number of rows at which the buffer is flushed.
    pub closed spec fn threshold(&self) -> nat {
        self.threshold as nat
    }

    /// Between two steps the buffer is below its threshold and holds no
    /// more rows than were decoded.
    pub closed spec fn wf(&self) -> bool {
        &&& self.batch.wf()
        &&& self.threshold > 0
        &&& self.done <= self.total
        &&& self.batch@.len() <= self.done
        &&& self.batch@.len() < self.threshold
    }

    /// A driver for a run of `total` rows that flushes at `threshold` rows.
    pub fn with_threshold(total: u64, threshold: usize) -> (converter: Converter)
        requires
            threshold > 0,
        ensures
            converter.wf(),
            converter.state() == DecoderState::AwaitGroupHeader,
            converter.buffered() == Seq::<RowView>::empty(),
            converter.done() == 0,
            converter.total() == total,
            converter.threshold() == threshold,
    {
        Converter { decoder: StreamDecoder::new(), batch: Batch::new(), done: 0, total, threshold }
    }

    /// A driver for a run of `total` rows that flushes at the standard
    /// number of rows.
    pub fn new(total: u64) -> (converter: Converter)
        ensures
            converter.wf(),
            converter.state() == DecoderState::AwaitGroupHeader,
            converter.buffered() == Seq::<RowView>::empty(),
            converter.done() == 0,
            converter.total() == total,
            converter.threshold() == crate::batch::BATCH_ROWS,
    {
        Converter::with_threshold(total, 10_000_000)
    }

    /// Whether every row of the run has been decoded.
    pub fn is_done(&self) -> (done: bool)
        ensures
            done == (self.done() == self.total()),
    {
        self.done == self.total
    }

    /// The number of rows decoded so far.
    pub fn rows_done(&self) -> (n: u64)
        ensures
            n == self.done(),
    {
        self.done
    }

    /// Decodes the next row from the start of `data` and buffers it. Where a
    /// flush is then due, the buffer is sorted, handed out as a row group
    /// and emptied. Says how many bytes the row took.
    ///
    /// A row that cannot be decoded leaves the driver as it was. A flush
    /// fails where the buffer is too large to sort, and only there: the row
    /// is then counted and stays in the buffer, and the run is over.
    pub fn step(&mut self, data: &[u8]) -> (r: Result<(usize, Option<Batch>), DecodeError>)
        requires
            old(self).wf(),
            old(self).done() < old(self).total(),
        ensures
            match decoded_row(old(self).state(), data@) {
                Err(e) => r == Err::<(usize, Option<Batch>), DecodeError>(e) && *final(self)
                    == *old(self),
                Ok((row, next, n)) => {
                    let rows = old(self).buffered().push(row);
                    let due = flush_due(
                        rows.len(),
                        old(self).done() + 1,
                        old(self).total(),
                        old(self).threshold(),
                    );
                    &&& final(self).state() == next
                    &&& final(self).done() == old(self).done() + 1
                    &&& final(self).total() == old(self).total()
                    &&& final(self).threshold() == old(self).threshold()
                    &&& match r {
                        Ok((taken, group)) => {
                            &&& taken == n
                            &&& 0 < taken <= data@.len()
                            &&& final(self).wf()
                            &&& match group {
                                Some(out) => {
                                    &&& due
                                    &&& !too_large(rows)
                                    &&& out.wf()
                                    &&& is_rearrangement(out@, rows)
                                    &&& sorted_by_script(out@)
                                    &&& final(self).buffered() == Seq::<RowView>::empty()
                                },
                                None => !due && final(self).buffered() == rows,
                            }
                        },
                        Err(e) => {
                            &&& due
                            &&& too_large(rows)
                            &&& e == DecodeError::BatchTooLarge
                            &&& final(self).buffered() == rows
                        },
                    }
                },
            },
    {
        let (row, taken) = match self.decoder.next_row(data) {
            Ok(read) => read,
            Err(e) => {
                return Err(e);
            },
        };
        self.batch.push(row);
        self.done = self.done + 1;
        if self.batch.len() >= self.threshold || self.done == self.total {
            match self.batch.sorted() {
                Ok(group) => {
                    self.batch.clear();
                    Ok((taken, Some(group)))
                },
                Err(e) => Err(e),
            }
        } else {
            Ok((taken, None))
        }
    }

    /// Ends the run: every row must have been decoded, and the last group
    /// must be complete.
    pub fn finish(&self) -> (r: Result<(), DecodeError>)
        ensures
            match r {
                Ok(_) => self.done() == self.total() && self.state() is AwaitGroupHeader,
                Err(e) => e == DecodeError::CountMismatch && !(self.done() == self.total()
                    && self.state() is AwaitGroupHeader),
            },
    {
        if self.done == self.total && self.decoder.remaining() == 0 {
            Ok(())
        } else {
            Err(DecodeError::CountMismatch)
        }
    }
}

/// The number of row groups that `n` rows make at `t` rows a group.
pub open spec fn chunk_count(n: nat, t: nat) -> nat {
    ((n + t - 1) / (t as int)) as nat
}

/// The rows of group `k` where `rows` are cut every `t` rows: the rows from
/// position `k * t` on, up to `t` of them.
pub open spec fn chunk(rows: Seq<RowView>, k: int, t: nat) -> Seq<RowView> {
    rows.subrange(
        k * t,
        if (k + 1) * t < rows.len() {
            (k + 1) * t
        } else {
            rows.len() as int
        },
    )
}

/// The rows of each of `groups`.
pub open spec fn group_views(groups: Seq<Batch>) -> Seq<Seq<RowView>> {
    Seq::new(groups.len(), |k: int| groups[k]@)
}

/// The number of rows that `groups` hold together.
pub open spec fn total_rows(groups: Seq<Seq<RowView>>) -> nat
    decreases groups.len(),
{
    if groups.len() == 0 {
        0
    } else {
        total_rows(groups.drop_last()) + groups.last().len()
    }
}

/// Whether `groups` are the row groups of `rows` at `t` rows a group: one
/// group for every `t` rows and one for what is left, each holding its rows
/// of the input, every one once, in ascending order of script. Rows are
/// sorted within a group, never across groups.
pub open spec fn is_grouping(groups: Seq<Seq<RowView>>, rows: Seq<RowView>, t: nat) -> bool {
    &&& groups.len() == chunk_count(rows.len(), t)
    &&& total_rows(groups) == rows.len()
    &&& forall|k: int|
        0 <= k < groups.len() ==> is_rearrangement(#[trigger] groups[k], chunk(rows, k, t))
    &&& forall|k: int| 0 <= k < groups.len() ==> sorted_by_script(#[trigger] groups[k])
}

proof fn lemma_chunk_count(c: nat, b: nat, t: nat)
    requires
        0 < t,
        b <= t,
    ensures
        chunk_count(c * t + b, t) == if b == 0 {
            c
        } else {
            c + 1
        },
        (c + 1) * t == c * t + t,
{
    assert((c + 1) * t == c * t + t) by (nonlinear_arith);
    let q = (c * t + b + t - 1) / (t as int);
    if b == 0 {
        assert(q == c) by (nonlinear_arith)
            requires
                q == (c * t + t - 1) / (t as int),
                0 < t,
        ;
    } else {
        assert(q == c + 1) by (nonlinear_arith)
            requires
                q == (c * t + b + t - 1) / (t as int),
                0 < b <= t,
        ;
    }
}

/// A full group keeps its rows when rows are added at the end.
proof fn lemma_chunk_stable(before: Seq<RowView>, after: Seq<RowView>, k: int, c: nat, t: nat)
    requires
        0 <= k < c,
        c * t <= before.len() <= after.len(),
        after.take(before.len() as int) == before,
    ensures
        chunk(after, k, t) == chunk(before, k, t),
{
    assert(0 <= k * t && (k + 1) * t <= c * t) by (nonlinear_arith)
        requires
            0 <= k < c,
    ;
    assert(k * t <= (k + 1) * t) by (nonlinear_arith)
        requires
            0 <= k,
    ;
    assert forall|i: int| 0 <= i < before.len() implies #[trigger] after[i] == before[i] by {
        assert(after.take(before.len() as int)[i] == after[i]);
    }
    assert(chunk(after, k, t) =~= chunk(before, k, t));
}

/// Whether the flush that follows row `n` of the snapshot `s`, at `t` rows
/// a group, finds its rows too large to sort: the header and the first `n`
/// rows decode, a flush is due after row `n`, because it completes a group
/// or is the last row, and the rows of that group are too large.
pub open spec fn flush_too_large(s: Seq<u8>, t: nat, n: nat) -> bool {
    match decoded_header(s) {
        Err(_) => false,
        Ok((header, start)) => 0 < n <= header.coin_count && match decoded_rows(
            DecoderState::AwaitGroupHeader,
            s.skip(start as int),
            n,
        ) {
            Err(_) => false,
            Ok((rows, _, _)) => {
                &&& n == header.coin_count || n == chunk_count(n, t) * t
                &&& too_large(chunk(rows, chunk_count(n, t) - 1, t))
            },
        },
    }
}

/// A flush that is too large shows in the groups of the whole snapshot:
/// where the snapshot decodes, the group that the flush would have written
/// is one of its groups, with the same rows.
pub proof fn lemma_flush_too_large_group(s: Seq<u8>, t: nat, n: nat)
    requires
        t > 0,
        flush_too_large(s, t, n),
        decoded_snapshot(s) is Ok,
    ensures
        ({
            let rows = decoded_snapshot(s)->Ok_0.1;
            let k = chunk_count(n, t) - 1;
            0 <= k < chunk_count(rows.len(), t) && too_large(chunk(rows, k, t))
        }),
{
    let (header, start) = decoded_header(s)->Ok_0;
    let body = s.skip(start as int);
    let total = header.coin_count as nat;
    let rows = decoded_snapshot(s)->Ok_0.1;
    let first = decoded_rows(DecoderState::AwaitGroupHeader, body, n)->Ok_0.0;
    lemma_decoded_rows_prefix(DecoderState::AwaitGroupHeader, body, n, total);
    lemma_decoded_rows_len(DecoderState::AwaitGroupHeader, body, total);
    let c = chunk_count(n, t);
    let k = c - 1;
    assert(1 <= c <= chunk_count(total, t)) by (nonlinear_arith)
        requires
            0 < n <= total,
            t > 0,
            c == (n + t - 1) / (t as int),
            chunk_count(total, t) == (total + t - 1) / (t as int),
    ;
    if n == total {
        assert(first =~= rows);
    } else {
        assert((k + 1) * t == n);
        assert(0 <= k * t <= n) by (nonlinear_arith)
            requires
                (k + 1) * t == n,
                k >= 0,
                t > 0,
        ;
        assert(chunk(rows, k, t) =~= chunk(first, k, t));
    }
}

/// Decodes a whole snapshot from the start of `data` into its row groups,
/// flushing the buffer whenever it holds `threshold` rows and after the last
/// row.
///
/// The run succeeds where the snapshot decodes and none of its groups is
/// too large to sort. The groups then hold as many rows as the header
/// declares, each row once. The first flush that is too large ends the run,
/// also where a later row could not have been decoded.
pub fn convert(data: &[u8], threshold: usize) -> (r: Result<
    (SnapshotHeader, Vec<Batch>),
    DecodeError,
>)
    requires
        threshold > 0,
    ensures
        match r {
            Ok((header, groups)) => {
                &&& decoded_snapshot(data@) matches Ok((h, rows, _))
                &&& h == header@
                &&& is_grouping(group_views(groups@), rows, threshold as nat)
                &&& total_rows(group_views(groups@)) == header.coin_count
                &&& forall|k: int| 0 <= k < groups@.len() ==> (#[trigger] groups@[k]).wf()
            },
            Err(e) => if exists|n: nat| flush_too_large(data@, threshold as nat, n) {
                e == DecodeError::BatchTooLarge
            } else {
                decoded_snapshot(data@) == Err::<(HeaderView, Seq<RowView>, nat), DecodeError>(e)
            },
        },
        r is Ok ==> forall|n: nat| !flush_too_large(data@, threshold as nat, n),
        decoded_snapshot(data@) matches Ok((_, rows, _)) && (forall|k: int|
            0 <= k < chunk_count(rows.len(), threshold as nat) ==> !too_large(
                #[trigger] chunk(rows, k, threshold as nat),
            )) ==> r is Ok,
{
    let (header, start) = match decode_header(data) {
        Ok(read) => read,
        Err(e) => {
            return Err(e);
        },
    };
    let body = vstd::slice::slice_subrange(data, start, data.len());
    assert(body@ =~= data@.skip(start as int));
    let mut converter = Converter::with_threshold(header.coin_count, threshold);
    let mut groups: Vec<Batch> = Vec::new();
    let mut taken: usize = 0;
    let ghost mut rows: Seq<RowView> = Seq::empty();
    let ghost mut flushed: nat = 0;
    let ghost t = threshold as nat;
    proof {
        lemma_chunk_count(0, 0, t);
        assert(0 * t == 0) by (nonlinear_arith);
        assert(rows.skip(0) =~= Seq::<RowView>::empty());
        assert(group_views(groups@) =~= Seq::<Seq<RowView>>::empty());
    }
    while !converter.is_done()
        invariant
            t == threshold > 0,
            converter.wf(),
            converter.total() == header.coin_count,
            converter.threshold() == t,
            taken <= body@.len(),
            body@ == data@.skip(start as int),
            decoded_header(data@) == Ok::<(HeaderView, nat), DecodeError>(
                (header@, start as nat),
            ),
            decoded_rows(DecoderState::AwaitGroupHeader, body@, converter.done()) == Ok::<
                (Seq<RowView>, DecoderState, nat),
                DecodeError,
            >((rows, converter.state(), taken as nat)),
            rows.len() == converter.done(),
            flushed + converter.buffered().len() == converter.done(),
            converter.buffered() == rows.skip(flushed as int),
            converter.done() < converter.total() ==> flushed == groups@.len() * t,
            converter.done() == converter.total() ==> converter.buffered().len() == 0,
            groups@.len() == chunk_count(flushed, t),
            total_rows(group_views(groups@)) == flushed,
            forall|n: nat| n <= converter.done() ==> !#[trigger] flush_too_large(data@, t, n),
            forall|k: int| 0 <= k < groups@.len() ==> (#[trigger] groups@[k]).wf(),
            forall|k: int|
                0 <= k < groups@.len() ==> is_rearrangement(
                    (#[trigger] groups@[k])@,
                    chunk(rows, k, t),
                ),
            forall|k: int| 0 <= k < groups@.len() ==> sorted_by_script((#[trigger] groups@[k])@),
        decreases converter.total() - converter.done(),
    {
        let rest = vstd::slice::slice_subrange(body, taken, body.len());
        assert(rest@ =~= body@.skip(taken as int));
        let ghost before = rows;
        let ghost buffered = converter.buffered();
        let ghost old_groups = groups@;
        let ghost c = groups@.len();
        let ghost done = converter.done();
        let ghost state = converter.state();
        match converter.step(rest) {
            Ok((n, group)) => {
                taken = taken + n;
                proof {
                    let step = decoded_row(state, rest@)->Ok_0;
                    rows = before.push(step.0);
                    assert(rows.take(before.len() as int) =~= before);
                    assert(buffered.push(step.0) =~= rows.skip(flushed as int));
                    assert forall|k: int| 0 <= k < c implies chunk(rows, k, t) == chunk(
                        before,
                        k,
                        t,
                    ) by {
                        lemma_chunk_stable(before, rows, k, c, t);
                    }
                }
                proof {
                    let b = (rows.len() - flushed) as nat;
                    lemma_chunk_count(c, b, t);
                    assert(chunk(rows, c as int, t) =~= rows.skip(flushed as int));
                    assert(!flush_too_large(data@, t, (done + 1) as nat));
                }
                match group {
                    Some(out) => {
                        proof {
                            flushed = rows.len();
                        }
                        groups.push(out);
                        proof {
                            assert(group_views(groups@).drop_last() =~= group_views(old_groups));
                            assert(group_views(groups@).last() == out@);
                            assert(rows.skip(rows.len() as int) =~= Seq::<RowView>::empty());
                            assert forall|k: int| 0 <= k < groups@.len() implies is_rearrangement(
                                (#[trigger] groups@[k])@,
                                chunk(rows, k, t),
                            ) by {
                                if k < c {
                                    assert(groups@[k] == old_groups[k]);
                                }
                            }
                        }
                    },
                    None => {},
                }
            },
            Err(e) => {
                proof {
                    let next = (done + 1) as nat;
                    if decoded_row(state, rest@) is Err {
                        assert(decoded_rows(DecoderState::AwaitGroupHeader, body@, next) == Err::<
                            (Seq<RowView>, DecoderState, nat),
                            DecodeError,
                        >(e));
                        lemma_decoded_rows_fail(
                            DecoderState::AwaitGroupHeader,
                            body@,
                            next,
                            header.coin_count as nat,
                        );
                        // No row from here on decodes, so no flush is reached.
                        assert forall|n: nat| !flush_too_large(data@, t, n) by {
                            if n >= next {
                                lemma_decoded_rows_fail(
                                    DecoderState::AwaitGroupHeader,
                                    body@,
                                    next,
                                    n,
                                );
                            }
                        }
                    } else {
                        // The flush after this row is the one that is too large.
                        let row = decoded_row(state, rest@)->Ok_0.0;
                        let grown = before.push(row);
                        let b = (grown.len() - flushed) as nat;
                        lemma_chunk_count(c, b, t);
                        assert(buffered.push(row) =~= grown.skip(flushed as int));
                        assert(chunk(grown, c as int, t) =~= grown.skip(flushed as int));
                        assert(flush_too_large(data@, t, next));
                        if decoded_snapshot(data@) is Ok {
                            lemma_flush_too_large_group(data@, t, next);
                        }
                    }
                }
                return Err(e);
            },
        }
    }
    proof {
        assert(rows.skip(flushed as int).len() == 0);
        assert forall|n: nat| !flush_too_large(data@, t, n) by {}
    }
    match converter.finish() {
        Ok(_) => Ok((header, groups)),
        Err(e) => Err(e),
    }
}

} // verus!
