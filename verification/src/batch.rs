//! The accumulator: decoded rows buffered column by column, and sorted by
//! script before they leave as one row group.

use vstd::prelude::*;
use crate::error::DecodeError;
use crate::snapshot::{Row, RowView};

verus! {

/// The number of rows at which a batch is flushed.
pub const BATCH_ROWS: u64 = 10_000_000;

/// The most rows that one batch can order.
pub const MAX_BATCH_ROWS: usize = 0xffff_ffff;

/// The most bytes that the scripts of one batch can hold together.
pub const MAX_BATCH_BYTES: usize = 0x7fff_ffff;

/// Whether `a` comes before `b`, or equals it, in the order of byte strings:
/// by the first byte in which they differ, a prefix before what extends it.
pub open spec fn bytes_le(a: Seq<u8>, b: Seq<u8>) -> bool
    decreases a.len(),
{
    if a.len() == 0 {
        true
    } else if b.len() == 0 {
        false
    } else if a[0] != b[0] {
        a[0] < b[0]
    } else {
        bytes_le(a.drop_first(), b.drop_first())
    }
}

/// Whether the scripts of `rows` never decrease.
pub open spec fn sorted_by_script(rows: Seq<RowView>) -> bool {
    forall|i: int, j: int|
        0 <= i <= j < rows.len() ==> bytes_le(#[trigger] rows[i].script, #[trigger] rows[j].script)
}

/// Whether `p` lists each of the numbers below `n` once.
pub open spec fn is_permutation(p: Seq<int>, n: nat) -> bool {
    &&& p.len() == n
    &&& forall|i: int| 0 <= i < n ==> 0 <= #[trigger] p[i] < n
    &&& forall|i: int, j: int| 0 <= i < j < n ==> #[trigger] p[i] != #[trigger] p[j]
}

/// Whether `out` holds the items of `input` in the order that `p` gives:
/// item `i` of `out` is item `p[i]` of `input`.
pub open spec fn arranged_by(out: Seq<RowView>, input: Seq<RowView>, p: Seq<int>) -> bool {
    &&& is_permutation(p, input.len())
    &&& out.len() == input.len()
    &&& forall|i: int| 0 <= i < out.len() ==> #[trigger] out[i] == input[p[i]]
}

/// Whether `out` holds the rows of `input` in some order: every row of
/// `input` once, none twice, none besides.
pub open spec fn is_rearrangement(out: Seq<RowView>, input: Seq<RowView>) -> bool {
    exists|p: Seq<int>| arranged_by(out, input, p)
}

/// The number of bytes that the first `n` of `scripts` hold together.
pub open spec fn total_len(scripts: Seq<Seq<u8>>, n: nat) -> nat
    decreases n,
{
    if n == 0 {
        0
    } else {
        total_len(scripts, (n - 1) as nat) + scripts[n - 1].len()
    }
}

/// The byte strings that `scripts` hold.
pub open spec fn byte_seqs(scripts: Seq<Vec<u8>>) -> Seq<Seq<u8>> {
    Seq::new(scripts.len(), |i: int| scripts[i]@)
}

/// Whether `indices` order `values`: they list each position of `values`
/// once, and the values at those positions never decrease.
pub open spec fn sorts(indices: Seq<u32>, values: Seq<Seq<u8>>) -> bool {
    &&& indices.len() == values.len()
    &&& forall|i: int| 0 <= i < indices.len() ==> (#[trigger] indices[i]) < values.len()
    &&& forall|i: int, j: int|
        0 <= i < j < indices.len() ==> #[trigger] indices[i] != #[trigger] indices[j]
    &&& forall|i: int, j: int|
        0 <= i <= j < indices.len() ==> bytes_le(
            values[(#[trigger] indices[i]) as int],
            values[(#[trigger] indices[j]) as int],
        )
}

#[verifier::external_type_specification]
#[verifier::external_body]
pub struct ExArrowError(arrow::error::ArrowError);

/// Calls `arrow::compute::sort_to_indices`, with no options and no limit,
/// on a `BinaryArray` of these scripts. Trusted: the call succeeds, as it
/// does on every array of binary values, and the indices it gives order the
/// scripts, as [`sorts`] says; which of two equal scripts comes first is
/// left open. The bounds are those beyond which the array cannot be built
/// or indexed.
#[verifier::external_body]
fn sort_to_indices(scripts: &Vec<Vec<u8>>) -> (r: Result<Vec<u32>, arrow::error::ArrowError>)
    requires
        scripts@.len() <= MAX_BATCH_ROWS,
        total_len(byte_seqs(scripts@), scripts@.len()) <= MAX_BATCH_BYTES,
    ensures
        r is Ok,
        r matches Ok(indices) ==> sorts(indices@, byte_seqs(scripts@)),
{
    let array = arrow::array::BinaryArray::from_iter_values(scripts.iter());
    let indices = arrow::compute::sort_to_indices(&array, None, None)?;
    Ok(indices.values().to_vec())
}

/// A batch of rows, one growable sequence per field.
pub struct Batch {
    txids: Vec<String>,
    vouts: Vec<u64>,
    heights: Vec<u64>,
    coinbases: Vec<bool>,
    amounts: Vec<u64>,
    scripts: Vec<Vec<u8>>,
}

impl View for Batch {
    type V = Seq<RowView>;

    /// The rows of the batch, in the order in which they were added.
    closed spec fn view(&self) -> Seq<RowView> {
        Seq::new(
            self.scripts@.len(),
            |i: int|
                RowView {
                    txid: self.txids@[i]@,
                    vout: self.vouts@[i],
                    height: self.heights@[i],
                    coinbase: self.coinbases@[i],
                    amount: self.amounts@[i],
                    script: self.scripts@[i]@,
                },
        )
    }
}

/// The scripts of `rows`.
pub open spec fn scripts_of(rows: Seq<RowView>) -> Seq<Seq<u8>> {
    Seq::new(rows.len(), |i: int| rows[i].script)
}

/// Whether `rows` are more than one batch can order.
pub open spec fn too_large(rows: Seq<RowView>) -> bool {
    rows.len() > MAX_BATCH_ROWS || total_len(scripts_of(rows), rows.len()) > MAX_BATCH_BYTES
}

/// More scripts never hold fewer bytes.
pub proof fn lemma_total_len_monotonic(scripts: Seq<Seq<u8>>, a: nat, b: nat)
    requires
        a <= b,
    ensures
        total_len(scripts, a) <= total_len(scripts, b),
    decreases b,
{
    if a < b {
        lemma_total_len_monotonic(scripts, a, (b - 1) as nat);
    }
}

impl Batch {
    /// Whether the columns have one length.
    pub closed spec fn wf(&self) -> bool {
        &&& self.txids@.len() == self.scripts@.len()
        &&& self.vouts@.len() == self.scripts@.len()
        &&& self.heights@.len() == self.scripts@.len()
        &&& self.coinbases@.len() == self.scripts@.len()
        &&& self.amounts@.len() == self.scripts@.len()
    }

    /// An empty batch.
    pub fn new() -> (batch: Batch)
        ensures
            batch.wf(),
            batch@ == Seq::<RowView>::empty(),
    {
        let batch = Batch {
            txids: Vec::new(),
            vouts: Vec::new(),
            heights: Vec::new(),
            coinbases: Vec::new(),
            amounts: Vec::new(),
            scripts: Vec::new(),
        };
        assert(batch@ =~= Seq::<RowView>::empty());
        batch
    }

    /// The number of rows.
    pub fn len(&self) -> (n: usize)
        ensures
            n == self@.len(),
    {
        self.scripts.len()
    }

    /// Adds a row at the end.
    pub fn push(&mut self, row: Row)
        requires
            old(self).wf(),
        ensures
            final(self).wf(),
            final(self)@ == old(self)@.push(row@),
    {
        self.txids.push(row.txid);
        self.vouts.push(row.vout);
        self.heights.push(row.height);
        self.coinbases.push(row.coinbase);
        self.amounts.push(row.amount);
        self.scripts.push(row.script);
        assert(self@ =~= old(self)@.push(row@));
    }

    /// Removes every row.
    pub fn clear(&mut self)
        ensures
            final(self).wf(),
            final(self)@ == Seq::<RowView>::empty(),
    {
        self.txids.clear();
        self.vouts.clear();
        self.heights.clear();
        self.coinbases.clear();
        self.amounts.clear();
        self.scripts.clear();
        assert(self@ =~= Seq::<RowView>::empty());
    }

    /// The row at position `i`.
    pub fn row(&self, i: usize) -> (row: Row)
        requires
            self.wf(),
            i < self@.len(),
        ensures
            row@ == self@[i as int],
    {
        Row {
            txid: self.txids[i].clone(),
            vout: self.vouts[i],
            height: self.heights[i],
            coinbase: self.coinbases[i],
            amount: self.amounts[i],
            script: vstd::slice::slice_to_vec(self.scripts[i].as_slice()),
        }
    }

    /// The column of transaction ids.
    pub fn txids(&self) -> (column: &Vec<String>)
        requires
            self.wf(),
        ensures
            column@.len() == self@.len(),
            forall|i: int| 0 <= i < column@.len() ==> (#[trigger] column@[i])@ == self@[i].txid,
    {
        &self.txids
    }

    /// The column of output indices.
    pub fn vouts(&self) -> (column: &Vec<u64>)
        requires
            self.wf(),
        ensures
            column@.len() == self@.len(),
            forall|i: int| 0 <= i < column@.len() ==> #[trigger] column@[i] == self@[i].vout,
    {
        &self.vouts
    }

    /// The column of heights.
    pub fn heights(&self) -> (column: &Vec<u64>)
        requires
            self.wf(),
        ensures
            column@.len() == self@.len(),
            forall|i: int| 0 <= i < column@.len() ==> #[trigger] column@[i] == self@[i].height,
    {
        &self.heights
    }

    /// The column of coinbase flags.
    pub fn coinbases(&self) -> (column: &Vec<bool>)
        requires
            self.wf(),
        ensures
            column@.len() == self@.len(),
            forall|i: int| 0 <= i < column@.len() ==> #[trigger] column@[i] == self@[i].coinbase,
    {
        &self.coinbases
    }

    /// The column of amounts.
    pub fn amounts(&self) -> (column: &Vec<u64>)
        requires
            self.wf(),
        ensures
            column@.len() == self@.len(),
            forall|i: int| 0 <= i < column@.len() ==> #[trigger] column@[i] == self@[i].amount,
    {
        &self.amounts
    }

    /// The column of scripts.
    pub fn scripts(&self) -> (column: &Vec<Vec<u8>>)
        requires
            self.wf(),
        ensures
            column@.len() == self@.len(),
            forall|i: int| 0 <= i < column@.len() ==> (#[trigger] column@[i])@ == self@[i].script,
    {
        &self.scripts
    }

    /// Whether the batch is small enough to be ordered.
    pub fn fits(&self) -> (ok: bool)
        requires
            self.wf(),
        ensures
            ok == !too_large(self@),
    {
        let n = self.scripts.len();
        if n > MAX_BATCH_ROWS {
            return false;
        }
        let ghost scripts = scripts_of(self@);
        let mut bytes: usize = 0;
        let mut i: usize = 0;
        while i < n
            invariant
                i <= n == self.scripts@.len(),
                self.wf(),
                scripts == scripts_of(self@),
                bytes == total_len(scripts, i as nat),
                bytes <= MAX_BATCH_BYTES,
            decreases n - i,
        {
            let size = self.scripts[i].len();
            proof {
                assert(scripts[i as int] == self.scripts@[i as int]@);
                lemma_total_len_monotonic(scripts, (i + 1) as nat, n as nat);
            }
            if size > MAX_BATCH_BYTES - bytes {
                return false;
            }
            bytes = bytes + size;
            i = i + 1;
        }
        true
    }

    /// The rows at the positions that `indices` give, in that order; nothing
    /// where a position lies beyond the batch.
    pub fn take(&self, indices: &Vec<u32>) -> (r: Option<Batch>)
        requires
            self.wf(),
        ensures
            match r {
                Some(out) => {
                    &&& out.wf()
                    &&& out@.len() == indices@.len()
                    &&& forall|i: int|
                        0 <= i < indices@.len() ==> (#[trigger] indices@[i]) < self@.len()
                    &&& forall|i: int|
                        0 <= i < indices@.len() ==> #[trigger] out@[i] == self@[indices@[i] as int]
                },
                None => exists|i: int| 0 <= i < indices@.len() && indices@[i] >= self@.len(),
            },
    {
        let mut out = Batch::new();
        let n = self.len();
        let mut i: usize = 0;
        while i < indices.len()
            invariant
                i <= indices@.len(),
                self.wf(),
                n == self@.len(),
                out.wf(),
                out@.len() == i,
                forall|k: int| 0 <= k < i ==> (#[trigger] indices@[k]) < self@.len(),
                forall|k: int| 0 <= k < i ==> #[trigger] out@[k] == self@[indices@[k] as int],
            decreases indices@.len() - i,
        {
            let at = indices[i] as usize;
            if at >= n {
                return None;
            }
            let ghost before = out@;
            let row = self.row(at);
            out.push(row);
            assert forall|k: int| 0 <= k < i + 1 implies #[trigger] out@[k]
                == self@[indices@[k] as int] by {
                if k < i {
                    assert(out@[k] == before[k]);
                } else {
                    assert(out@[k] == row@);
                }
            }
            i = i + 1;
        }
        Some(out)
    }

    /// The rows of the batch in ascending order of their scripts. A batch
    /// beyond the bounds of the sort is refused as too large; every other
    /// batch is sorted.
    pub fn sorted(&self) -> (r: Result<Batch, DecodeError>)
        requires
            self.wf(),
        ensures
            match r {
                Ok(out) => {
                    &&& !too_large(self@)
                    &&& out.wf()
                    &&& is_rearrangement(out@, self@)
                    &&& sorted_by_script(out@)
                },
                Err(e) => too_large(self@) && e == DecodeError::BatchTooLarge,
            },
    {
        if !self.fits() {
            return Err(DecodeError::BatchTooLarge);
        }
        assert(byte_seqs(self.scripts@) =~= scripts_of(self@));
        match sort_to_indices(&self.scripts) {
            Ok(indices) => match self.take(&indices) {
                Some(out) => {
                    proof {
                        let p = Seq::new(indices@.len(), |i: int| indices@[i] as int);
                        assert(arranged_by(out@, self@, p));
                        assert forall|i: int, j: int| 0 <= i <= j < out@.len() implies bytes_le(
                            #[trigger] out@[i].script,
                            #[trigger] out@[j].script,
                        ) by {
                            assert(out@[i] == self@[indices@[i] as int]);
                            assert(out@[j] == self@[indices@[j] as int]);
                            assert(scripts_of(self@)[indices@[i] as int] == out@[i].script);
                            assert(scripts_of(self@)[indices@[j] as int] == out@[j].script);
                        }
                    }
                    Ok(out)
                },
                None => vstd::pervasive::unreached(),
            },
            Err(_) => vstd::pervasive::unreached(),
        }
    }
}

} // verus!
