//! Coins: the metadata stored for one unspent output.

use vstd::prelude::*;
use crate::amount::{decompressed_amount, try_decompress_amount};
use crate::error::DecodeError;
use crate::script::{decode_script, decoded_script};
use crate::varint::{decode_varint, decoded_varint};

verus! {

/// An unspent output's metadata.
#[derive(Clone, Debug, PartialEq, Eq)]
pub struct Coin {
    /// The height of the block that created the output.
    pub height: u64,
    /// Whether the creating transaction was a coinbase.
    pub coinbase: bool,
    /// The value in satoshi.
    pub amount: u64,
    /// The locking script, in canonical form.
    pub script: Vec<u8>,
}

/// A coin as a value of the specification.
pub struct CoinView {
    pub height: u64,
    pub coinbase: bool,
    pub amount: u64,
    pub script: Seq<u8>,
}

impl View for Coin {
    type V = CoinView;

    open spec fn view(&self) -> CoinView {
        CoinView {
            height: self.height,
            coinbase: self.coinbase,
            amount: self.amount,
            script: self.script@,
        }
    }
}

/// What decoding a coin at the start of `s` gives: the coin and the number
/// of bytes it took. The record is a continuation-bit integer holding twice
/// the height plus the coinbase flag, a continuation-bit integer holding the
/// compact amount, and the script. The first failure met in that order is
/// the one reported.
pub open spec fn decoded_coin(s: Seq<u8>) -> Result<(CoinView, nat), DecodeError> {
    match decoded_varint(s) {
        Err(e) => Err(e),
        Ok((code, n1)) => match decoded_varint(s.skip(n1 as int)) {
            Err(e) => Err(e),
            Ok((compact, n2)) => if decompressed_amount(compact as nat) > u64::MAX {
                Err(DecodeError::AmountOverflow)
            } else {
                match decoded_script(s.skip((n1 + n2) as int)) {
                    Err(e) => Err(e),
                    Ok((script, n3)) => Ok(
                        (
                            CoinView {
                                height: code / 2,
                                coinbase: code % 2 == 1,
                                amount: decompressed_amount(compact as nat) as u64,
                                script,
                            },
                            n1 + n2 + n3,
                        ),
                    ),
                }
            },
        },
    }
}

/// Decodes one coin from the start of `data`, and says how many bytes it
/// took.
pub fn decode_coin(data: &[u8]) -> (r: Result<(Coin, usize), DecodeError>)
    ensures
        match r {
            Ok((coin, n)) => decoded_coin(data@) == Ok::<(CoinView, nat), DecodeError>(
                (coin@, n as nat),
            ) && 0 < n <= data@.len(),
            Err(e) => decoded_coin(data@) == Err::<(CoinView, nat), DecodeError>(e),
        },
{
    let (code, n1) = match decode_varint(data) {
        Ok(read) => read,
        Err(e) => {
            return Err(e);
        },
    };
    let height: u64 = code >> 1;
    let coinbase: bool = (code & 1) != 0;
    assert(code >> 1 == code / 2) by (bit_vector);
    assert(((code & 1) != 0) == (code % 2 == 1)) by (bit_vector);
    let rest = vstd::slice::slice_subrange(data, n1, data.len());
    assert(rest@ =~= data@.skip(n1 as int));
    let (compact, n2) = match decode_varint(rest) {
        Ok(read) => read,
        Err(e) => {
            return Err(e);
        },
    };
    let amount = match try_decompress_amount(compact) {
        Some(amount) => amount,
        None => {
            return Err(DecodeError::AmountOverflow);
        },
    };
    let rest = vstd::slice::slice_subrange(data, n1 + n2, data.len());
    assert(rest@ =~= data@.skip((n1 + n2) as int));
    let (script, n3) = match decode_script(rest) {
        Ok(read) => read,
        Err(e) => {
            return Err(e);
        },
    };
    Ok((Coin { height, coinbase, amount, script }, n1 + n2 + n3))
}

} // verus!
