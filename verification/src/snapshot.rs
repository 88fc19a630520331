//! The snapshot itself: its header, and the stream of coins grouped by the
//! transaction that created them.

use vstd::prelude::*;
use crate::coin::{decode_coin, decoded_coin, Coin, CoinView};
use crate::error::DecodeError;
use crate::wire::{
    decode_compact_size,
    decode_txid,
    decoded_compact_size,
    decoded_txid,
    le_value,
    read_array,
    read_le,
    txid_text,
    txid_to_string,
};

verus! {

/// The networks that a snapshot can come from.
#[derive(Clone, Copy, Debug, PartialEq, Eq, Structural)]
pub enum Network {
    /// The main network.
    Bitcoin,
    /// The third test network.
    Testnet,
    /// The fourth test network.
    Testnet4,
    /// The signed test network.
    Signet,
    /// A local regression-test network.
    Regtest,
}

/// The five bytes that every snapshot starts with: `utxo` and `0xff`.
pub open spec fn snapshot_magic() -> Seq<u8> {
    seq![0x75u8, 0x74u8, 0x78u8, 0x6fu8, 0xffu8]
}

/// The network whose message start is `magic`, if there is one.
pub open spec fn known_network(magic: Seq<u8>) -> Option<Network> {
    if magic == seq![0xF9u8, 0xBEu8, 0xB4u8, 0xD9u8] {
        Some(Network::Bitcoin)
    } else if magic == seq![0x0Bu8, 0x11u8, 0x09u8, 0x07u8] {
        Some(Network::Testnet)
    } else if magic == seq![0x1Cu8, 0x16u8, 0x3Fu8, 0x28u8] {
        Some(Network::Testnet4)
    } else if magic == seq![0x0Au8, 0x03u8, 0xCFu8, 0x40u8] {
        Some(Network::Signet)
    } else if magic == seq![0xFAu8, 0xBFu8, 0xB5u8, 0xDAu8] {
        Some(Network::Regtest)
    } else {
        None
    }
}

/// Converts a `bitcoin::p2p::Magic` of these bytes into a
/// `bitcoin::Network`, through `TryFrom`. Trusted: the conversion knows the
/// five message starts of [`known_network`] and refuses every other.
#[verifier::external_body]
fn network_from_magic(magic: [u8; 4]) -> (network: Option<Network>)
    ensures
        network == known_network(magic@),
{
    match bitcoin::Network::try_from(bitcoin::p2p::Magic::from_bytes(magic)) {
        Ok(bitcoin::Network::Bitcoin) => Some(Network::Bitcoin),
        Ok(bitcoin::Network::Testnet) => Some(Network::Testnet),
        Ok(bitcoin::Network::Testnet4) => Some(Network::Testnet4),
        Ok(bitcoin::Network::Signet) => Some(Network::Signet),
        Ok(bitcoin::Network::Regtest) => Some(Network::Regtest),
        Err(_) => None,
    }
}

/// What a snapshot says of itself before its coins.
#[derive(Clone, Copy, Debug, PartialEq, Eq)]
pub struct SnapshotHeader {
    /// The version of the format.
    pub version: u16,
    /// The network of the chain.
    pub network: Network,
    /// The hash of the block at which the set was taken, as stored.
    pub block_hash: [u8; 32],
    /// The number of coins that follow.
    pub coin_count: u64,
}

/// A header as a value of the specification.
pub struct HeaderView {
    pub version: u16,
    pub network: Network,
    pub block_hash: Seq<u8>,
    pub coin_count: u64,
}

impl View for SnapshotHeader {
    type V = HeaderView;

    open spec fn view(&self) -> HeaderView {
        HeaderView {
            version: self.version,
            network: self.network,
            block_hash: self.block_hash@,
            coin_count: self.coin_count,
        }
    }
}

/// The number of bytes of a header.
pub const HEADER_LEN: usize = 51;

/// What decoding a header at the start of `s` gives. The header is the
/// magic, the version in two bytes, the network's message start in four, the
/// block hash in 32 and the number of coins in eight, numbers least
/// significant byte first. Each field is judged as soon as it is complete.
pub open spec fn decoded_header(s: Seq<u8>) -> Result<(HeaderView, nat), DecodeError> {
    if s.len() < 5 {
        Err(DecodeError::UnexpectedEof)
    } else if s.subrange(0, 5) != snapshot_magic() {
        Err(DecodeError::BadMagic)
    } else if s.len() < 11 {
        Err(DecodeError::UnexpectedEof)
    } else {
        match known_network(s.subrange(7, 11)) {
            None => Err(DecodeError::UnknownNetwork),
            Some(network) => if s.len() < 51 {
                Err(DecodeError::UnexpectedEof)
            } else {
                Ok(
                    (
                        HeaderView {
                            version: le_value(s.subrange(5, 7)) as u16,
                            network,
                            block_hash: s.subrange(11, 43),
                            coin_count: le_value(s.subrange(43, 51)) as u64,
                        },
                        51,
                    ),
                )
            },
        }
    }
}

/// Decodes the header from the start of `data`, and says how many bytes it
/// took.
pub fn decode_header(data: &[u8]) -> (r: Result<(SnapshotHeader, usize), DecodeError>)
    ensures
        match r {
            Ok((header, n)) => decoded_header(data@) == Ok::<(HeaderView, nat), DecodeError>(
                (header@, n as nat),
            ) && n == HEADER_LEN <= data@.len(),
            Err(e) => decoded_header(data@) == Err::<(HeaderView, nat), DecodeError>(e),
        },
{
    if data.len() < 5 {
        return Err(DecodeError::UnexpectedEof);
    }
    let magic: [u8; 5] = read_array(data, 0);
    if magic[0] != 0x75 || magic[1] != 0x74 || magic[2] != 0x78 || magic[3] != 0x6f || magic[4]
        != 0xff {
        return Err(DecodeError::BadMagic);
    }
    assert(data@.subrange(0, 5) =~= snapshot_magic());
    if data.len() < 11 {
        return Err(DecodeError::UnexpectedEof);
    }
    let version = read_le(data, 5, 2);
    proof {
        crate::wire::lemma_le_value_bound(data@.subrange(5, 7));
        reveal_with_fuel(crate::wire::pow256, 3);
    }
    let start: [u8; 4] = read_array(data, 7);
    let network = match network_from_magic(start) {
        Some(network) => network,
        None => {
            return Err(DecodeError::UnknownNetwork);
        },
    };
    if data.len() < HEADER_LEN {
        return Err(DecodeError::UnexpectedEof);
    }
    let block_hash: [u8; 32] = read_array(data, 11);
    let coin_count = read_le(data, 43, 8);
    Ok((SnapshotHeader { version: version as u16, network, block_hash, coin_count }, HEADER_LEN))
}

/// One decoded output: a coin with the transaction and the index it belongs
/// to.
#[derive(Clone, Debug, PartialEq, Eq)]
pub struct Row {
    /// The id of the creating transaction, as text.
    pub txid: String,
    /// The index of the output in that transaction.
    pub vout: u64,
    /// The height of the block that created the output.
    pub height: u64,
    /// Whether the creating transaction was a coinbase.
    pub coinbase: bool,
    /// The value in satoshi.
    pub amount: u64,
    /// The locking script, in canonical form.
    pub script: Vec<u8>,
}

/// A row as a value of the specification.
pub struct RowView {
    pub txid: Seq<char>,
    pub vout: u64,
    pub height: u64,
    pub coinbase: bool,
    pub amount: u64,
    pub script: Seq<u8>,
}

impl View for Row {
    type V = RowView;

    open spec fn view(&self) -> RowView {
        RowView {
            txid: self.txid@,
            vout: self.vout,
            height: self.height,
            coinbase: self.coinbase,
            amount: self.amount,
            script: self.script@,
        }
    }
}

/// The row of the coin `coin` at index `vout` of transaction `txid`.
pub open spec fn row_of(txid: Seq<u8>, vout: u64, coin: CoinView) -> RowView {
    RowView {
        txid: txid_text(txid),
        vout,
        height: coin.height,
        coinbase: coin.coinbase,
        amount: coin.amount,
        script: coin.script,
    }
}

/// Where the stream decoder stands between two coins.
pub enum DecoderState {
    /// The next bytes are the header of a group.
    AwaitGroupHeader,
    /// The next bytes are a coin of the transaction `txid`, of whose group
    /// `remaining` coins are still to come; `remaining` is not zero.
    ReadingGroupMembers { txid: Seq<u8>, remaining: u64 },
}

/// The state after one coin of a group of which `remaining` were to come.
pub open spec fn after_member(txid: Seq<u8>, remaining: u64) -> DecoderState {
    if remaining <= 1 {
        DecoderState::AwaitGroupHeader
    } else {
        DecoderState::ReadingGroupMembers { txid, remaining: (remaining - 1) as u64 }
    }
}

/// What decoding a group header at the start of `s` gives: the transaction
/// id and the number of coins of the group, which is not zero.
pub open spec fn decoded_group_header(s: Seq<u8>) -> Result<((Seq<u8>, u64), nat), DecodeError> {
    match decoded_txid(s) {
        Err(e) => Err(e),
        Ok((txid, n1)) => match decoded_compact_size(s.skip(n1 as int)) {
            Err(e) => Err(e),
            Ok((count, n2)) => if count == 0 {
                Err(DecodeError::EmptyGroup)
            } else {
                Ok(((txid, count), n1 + n2))
            },
        },
    }
}

/// What decoding a member of a group at the start of `s` gives: the index
/// of the output and its coin.
pub open spec fn decoded_member(s: Seq<u8>) -> Result<((u64, CoinView), nat), DecodeError> {
    match decoded_compact_size(s) {
        Err(e) => Err(e),
        Ok((vout, n1)) => match decoded_coin(s.skip(n1 as int)) {
            Err(e) => Err(e),
            Ok((coin, n2)) => Ok(((vout, coin), n1 + n2)),
        },
    }
}

/// One step of the stream decoder from `state` on the input `s`: the row it
/// emits, the state it moves to and the number of bytes it takes. Awaiting a
/// group, it first reads that group's header.
#[verifier::opaque]
pub open spec fn decoded_row(state: DecoderState, s: Seq<u8>) -> Result<
    (RowView, DecoderState, nat),
    DecodeError,
> {
    match state {
        DecoderState::AwaitGroupHeader => match decoded_group_header(s) {
            Err(e) => Err(e),
            Ok(((txid, count), n)) => match decoded_member(s.skip(n as int)) {
                Err(e) => Err(e),
                Ok(((vout, coin), m)) => Ok(
                    (row_of(txid, vout, coin), after_member(txid, count), n + m),
                ),
            },
        },
        DecoderState::ReadingGroupMembers { txid, remaining } => match decoded_member(s) {
            Err(e) => Err(e),
            Ok(((vout, coin), m)) => Ok(
                (row_of(txid, vout, coin), after_member(txid, remaining), m),
            ),
        },
    }
}

/// `count` steps of the stream decoder from `state` on the input `s`: the
/// rows in the order of the input, the state reached and the bytes taken.
/// The first step that fails decides the error.
pub open spec fn decoded_rows(state: DecoderState, s: Seq<u8>, count: nat) -> Result<
    (Seq<RowView>, DecoderState, nat),
    DecodeError,
>
    decreases count,
{
    if count == 0 {
        Ok((Seq::empty(), state, 0))
    } else {
        match decoded_rows(state, s, (count - 1) as nat) {
            Err(e) => Err(e),
            Ok((rows, middle, n)) => match decoded_row(middle, s.skip(n as int)) {
                Err(e) => Err(e),
                Ok((row, last, m)) => Ok((rows.push(row), last, n + m)),
            },
        }
    }
}

/// The decoder of the stream of coins: the transaction of the group being
/// read and the number of its coins still to come, none while a group header
/// is awaited.
pub struct StreamDecoder {
    txid: [u8; 32],
    remaining: u64,
}

impl View for StreamDecoder {
    type V = DecoderState;

    closed spec fn view(&self) -> DecoderState {
        if self.remaining == 0 {
            DecoderState::AwaitGroupHeader
        } else {
            DecoderState::ReadingGroupMembers { txid: self.txid@, remaining: self.remaining }
        }
    }
}

impl StreamDecoder {
    /// A decoder at the start of the stream.
    pub fn new() -> (decoder: StreamDecoder)
        ensures
            decoder@ == DecoderState::AwaitGroupHeader,
    {
        StreamDecoder { txid: [0u8;32], remaining: 0 }
    }

    /// The number of coins of the current group that are still to come.
    pub fn remaining(&self) -> (n: u64)
        ensures
            match self@ {
                DecoderState::AwaitGroupHeader => n == 0,
                DecoderState::ReadingGroupMembers { remaining, .. } => n == remaining && n > 0,
            },
    {
        self.remaining
    }

    /// Decodes the next coin from the start of `data`, with the header of
    /// its group where one is due, and says how many bytes that took. On
    /// failure the decoder is left as it was.
    pub fn next_row(&mut self, data: &[u8]) -> (r: Result<(Row, usize), DecodeError>)
        ensures
            match r {
                Ok((row, n)) => decoded_row(old(self)@, data@) == Ok::<
                    (RowView, DecoderState, nat),
                    DecodeError,
                >((row@, final(self)@, n as nat)) && 0 < n <= data@.len(),
                Err(e) => decoded_row(old(self)@, data@) == Err::<
                    (RowView, DecoderState, nat),
                    DecodeError,
                >(e) && *final(self) == *old(self),
            },
    {
        reveal(decoded_row);
        let mut txid = self.txid;
        let mut remaining = self.remaining;
        let mut taken: usize = 0;
        if remaining == 0 {
            let (id, n1) = match decode_txid(data) {
                Ok(read) => read,
                Err(e) => {
                    return Err(e);
                },
            };
            let rest = vstd::slice::slice_subrange(data, n1, data.len());
            assert(rest@ =~= data@.skip(n1 as int));
            let (count, n2) = match decode_compact_size(rest) {
                Ok(read) => read,
                Err(e) => {
                    return Err(e);
                },
            };
            if count == 0 {
                return Err(DecodeError::EmptyGroup);
            }
            txid = id;
            remaining = count;
            taken = n1 + n2;
        }
        let rest = vstd::slice::slice_subrange(data, taken, data.len());
        assert(rest@ =~= data@.skip(taken as int));
        assert(data@.skip(0) =~= data@);
        let (vout, n1) = match decode_compact_size(rest) {
            Ok(read) => read,
            Err(e) => {
                return Err(e);
            },
        };
        let tail = vstd::slice::slice_subrange(rest, n1, rest.len());
        assert(tail@ =~= rest@.skip(n1 as int));
        let (coin, n2) = match decode_coin(tail) {
            Ok(read) => read,
            Err(e) => {
                return Err(e);
            },
        };
        let row = Row {
            txid: txid_to_string(txid),
            vout,
            height: coin.height,
            coinbase: coin.coinbase,
            amount: coin.amount,
            script: coin.script,
        };
        self.txid = txid;
        self.remaining = remaining - 1;
        Ok((row, taken + n1 + n2))
    }
}

/// What decoding a whole snapshot at the start of `s` gives: the header,
/// the rows in the order of the input, and the bytes taken. As many coins
/// are read as the header declares; a last group that declares more coins
/// than that is a mismatch of counts. What follows the last coin is not
/// read.
pub open spec fn decoded_snapshot(s: Seq<u8>) -> Result<
    (HeaderView, Seq<RowView>, nat),
    DecodeError,
> {
    match decoded_header(s) {
        Err(e) => Err(e),
        Ok((header, n)) => match decoded_rows(
            DecoderState::AwaitGroupHeader,
            s.skip(n as int),
            header.coin_count as nat,
        ) {
            Err(e) => Err(e),
            Ok((rows, last, m)) => if last is AwaitGroupHeader {
                Ok((header, rows, n + m))
            } else {
                Err(DecodeError::CountMismatch)
            },
        },
    }
}

/// The views of `rows`, in order.
pub open spec fn row_views(rows: Seq<Row>) -> Seq<RowView> {
    rows.map_values(|row: Row| row@)
}

/// Decodes a whole snapshot from the start of `data`.
pub fn decode_snapshot(data: &[u8]) -> (r: Result<(SnapshotHeader, Vec<Row>, usize), DecodeError>)
    ensures
        match r {
            Ok((header, rows, n)) => decoded_snapshot(data@) == Ok::<
                (HeaderView, Seq<RowView>, nat),
                DecodeError,
            >((header@, row_views(rows@), n as nat)) && n <= data@.len(),
            Err(e) => decoded_snapshot(data@) == Err::<
                (HeaderView, Seq<RowView>, nat),
                DecodeError,
            >(e),
        },
{
    let (header, start) = match decode_header(data) {
        Ok(read) => read,
        Err(e) => {
            return Err(e);
        },
    };
    let body = vstd::slice::slice_subrange(data, start, data.len());
    assert(body@ =~= data@.skip(start as int));
    let mut decoder = StreamDecoder::new();
    let mut rows: Vec<Row> = Vec::new();
    let mut taken: usize = 0;
    let mut i: u64 = 0;
    assert(row_views(rows@) =~= Seq::<RowView>::empty());
    while i < header.coin_count
        invariant
            i <= header.coin_count,
            taken <= body@.len(),
            body@ == data@.skip(start as int),
            decoded_header(data@) == Ok::<(HeaderView, nat), DecodeError>(
                (header@, start as nat),
            ),
            decoded_rows(DecoderState::AwaitGroupHeader, body@, i as nat) == Ok::<
                (Seq<RowView>, DecoderState, nat),
                DecodeError,
            >((row_views(rows@), decoder@, taken as nat)),
        decreases header.coin_count - i,
    {
        let rest = vstd::slice::slice_subrange(body, taken, body.len());
        assert(rest@ =~= body@.skip(taken as int));
        let ghost before = rows@;
        match decoder.next_row(rest) {
            Ok((row, n)) => {
                rows.push(row);
                taken = taken + n;
                assert(row_views(rows@) =~= row_views(before).push(row@));
            },
            Err(e) => {
                proof {
                    assert(decoded_rows(DecoderState::AwaitGroupHeader, body@, (i + 1) as nat)
                        == Err::<(Seq<RowView>, DecoderState, nat), DecodeError>(e));
                    lemma_decoded_rows_fail(
                        DecoderState::AwaitGroupHeader,
                        body@,
                        (i + 1) as nat,
                        header.coin_count as nat,
                    );
                }
                return Err(e);
            },
        }
        i = i + 1;
    }
    if decoder.remaining() != 0 {
        return Err(DecodeError::CountMismatch);
    }
    Ok((header, rows, start + taken))
}

/// Every successful run of `count` steps gives `count` rows.
pub proof fn lemma_decoded_rows_len(state: DecoderState, s: Seq<u8>, count: nat)
    ensures
        decoded_rows(state, s, count) matches Ok((rows, _, _)) ==> rows.len() == count,
    decreases count,
{
    if count > 0 {
        lemma_decoded_rows_len(state, s, (count - 1) as nat);
    }
}

/// A run that succeeds begins with every shorter run: the first `k` steps
/// succeed too, and give the first `k` of its rows.
pub proof fn lemma_decoded_rows_prefix(state: DecoderState, s: Seq<u8>, k: nat, count: nat)
    requires
        k <= count,
        decoded_rows(state, s, count) is Ok,
    ensures
        decoded_rows(state, s, k) matches Ok((rows, _, _)) && rows == decoded_rows(
            state,
            s,
            count,
        )->Ok_0.0.take(k as int),
    decreases count,
{
    let all = decoded_rows(state, s, count)->Ok_0.0;
    lemma_decoded_rows_len(state, s, count);
    if k < count {
        lemma_decoded_rows_prefix(state, s, k, (count - 1) as nat);
        lemma_decoded_rows_len(state, s, (count - 1) as nat);
        let shorter = decoded_rows(state, s, (count - 1) as nat)->Ok_0.0;
        assert(shorter.take(k as int) =~= all.take(k as int));
    } else {
        assert(all.take(k as int) =~= all);
    }
}

/// A snapshot that decodes gives exactly as many rows as its header
/// declares, and its last group is complete.
pub proof fn lemma_snapshot_row_count(s: Seq<u8>)
    ensures
        decoded_snapshot(s) matches Ok((header, rows, _)) ==> rows.len() == header.coin_count,
{
    match decoded_header(s) {
        Ok((header, n)) => {
            lemma_decoded_rows_len(
                DecoderState::AwaitGroupHeader,
                s.skip(n as int),
                header.coin_count as nat,
            );
        },
        Err(_) => {},
    }
}

/// A group header that declares no coins fails the step that reads it, and
/// with it every run of steps from there: no row is emitted for the group,
/// whatever follows it.
pub proof fn lemma_empty_group_fails(s: Seq<u8>, count: nat)
    requires
        decoded_txid(s) is Ok,
        decoded_compact_size(s.skip(32)) matches Ok((declared, _)) && declared == 0,
    ensures
        decoded_row(DecoderState::AwaitGroupHeader, s) == Err::<
            (RowView, DecoderState, nat),
            DecodeError,
        >(DecodeError::EmptyGroup),
        count > 0 ==> decoded_rows(DecoderState::AwaitGroupHeader, s, count) == Err::<
            (Seq<RowView>, DecoderState, nat),
            DecodeError,
        >(DecodeError::EmptyGroup),
{
    reveal(decoded_row);
    if count > 0 {
        assert(s.skip(0) =~= s);
        assert(decoded_rows(DecoderState::AwaitGroupHeader, s, 0) == Ok::<
            (Seq<RowView>, DecoderState, nat),
            DecodeError,
        >((Seq::empty(), DecoderState::AwaitGroupHeader, 0)));
        assert(decoded_rows(DecoderState::AwaitGroupHeader, s, 1) is Err);
        lemma_decoded_rows_fail(DecoderState::AwaitGroupHeader, s, 1, count);
    }
}

/// Once a step fails, every longer run fails in the same way.
pub proof fn lemma_decoded_rows_fail(state: DecoderState, s: Seq<u8>, k: nat, count: nat)
    requires
        k <= count,
        decoded_rows(state, s, k) is Err,
    ensures
        decoded_rows(state, s, count) == decoded_rows(state, s, k),
    decreases count,
{
    if k < count {
        lemma_decoded_rows_fail(state, s, k, (count - 1) as nat);
    }
}

} // verus!
