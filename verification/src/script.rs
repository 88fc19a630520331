//! Locking scripts: the six compressed forms of a snapshot, their
//! reconstruction into canonical scripts, and the classes those fall in.

use vstd::prelude::*;
use crate::error::DecodeError;
use crate::varint::{decode_varint, decoded_varint};

verus! {

/// The opcode that duplicates the top of the stack.
pub const OP_DUP: u8 = 0x76;

/// The opcode that compares the two top items.
pub const OP_EQUAL: u8 = 0x87;

/// The opcode that compares the two top items and fails unless they are
/// equal.
pub const OP_EQUALVERIFY: u8 = 0x88;

/// The opcode that hashes the top of the stack to 20 bytes.
pub const OP_HASH160: u8 = 0xa9;

/// The opcode that checks a signature against a public key.
pub const OP_CHECKSIG: u8 = 0xac;

/// The codes below this one name compressed forms; a code from here on is
/// the length of a raw script plus this number.
pub const SPECIAL_SCRIPTS: u64 = 6;

/// How the script of a coin is stored.
#[derive(Clone, Copy, Debug, PartialEq, Eq, Structural)]
pub enum ScriptForm {
    /// The 20-byte hash of a public key.
    PubkeyHash,
    /// The 20-byte hash of a script.
    ScriptHash,
    /// The x coordinate of a public key with even y, to be paid in compressed form.
    CompressedKeyEven,
    /// The x coordinate of a public key with odd y, to be paid in compressed form.
    CompressedKeyOdd,
    /// The x coordinate of a public key with even y, to be paid in uncompressed form.
    UncompressedKeyEven,
    /// The x coordinate of a public key with odd y, to be paid in uncompressed form.
    UncompressedKeyOdd,
    /// The script itself, of the given length.
    RawCopy { len: u64 },
}

impl ScriptForm {
    /// The form that the code `code` announces.
    pub open spec fn of_code(code: u64) -> ScriptForm {
        if code == 0 {
            ScriptForm::PubkeyHash
        } else if code == 1 {
            ScriptForm::ScriptHash
        } else if code == 2 {
            ScriptForm::CompressedKeyEven
        } else if code == 3 {
            ScriptForm::CompressedKeyOdd
        } else if code == 4 {
            ScriptForm::UncompressedKeyEven
        } else if code == 5 {
            ScriptForm::UncompressedKeyOdd
        } else {
            ScriptForm::RawCopy { len: (code - 6) as u64 }
        }
    }

    /// The number of bytes stored for a script of this form.
    pub open spec fn payload_len(self) -> nat {
        match self {
            ScriptForm::PubkeyHash | ScriptForm::ScriptHash => 20,
            ScriptForm::RawCopy { len } => len as nat,
            _ => 32,
        }
    }

    /// The form that the code `code` announces.
    pub fn from_code(code: u64) -> (form: ScriptForm)
        ensures
            form == ScriptForm::of_code(code),
    {
        if code == 0 {
            ScriptForm::PubkeyHash
        } else if code == 1 {
            ScriptForm::ScriptHash
        } else if code == 2 {
            ScriptForm::CompressedKeyEven
        } else if code == 3 {
            ScriptForm::CompressedKeyOdd
        } else if code == 4 {
            ScriptForm::UncompressedKeyEven
        } else if code == 5 {
            ScriptForm::UncompressedKeyOdd
        } else {
            ScriptForm::RawCopy { len: code - SPECIAL_SCRIPTS }
        }
    }

    /// The number of bytes stored for a script of this form.
    pub fn payload_size(&self) -> (n: u64)
        ensures
            n == self.payload_len(),
    {
        match self {
            ScriptForm::PubkeyHash | ScriptForm::ScriptHash => 20,
            ScriptForm::RawCopy { len } => *len,
            _ => 32,
        }
    }
}

/// The bytes that announce a push of `len` bytes of data: the length itself
/// below `0x4c`, else one of the three extended push opcodes and the length
/// in one, two or four bytes, least significant first.
pub open spec fn push_prefix(len: nat) -> Seq<u8> {
    if len < 0x4c {
        seq![len as u8]
    } else if len < 0x100 {
        seq![0x4cu8, len as u8]
    } else if len < 0x1_0000 {
        seq![0x4du8, (len % 0x100) as u8, (len / 0x100) as u8]
    } else {
        seq![
            0x4eu8,
            (len % 0x100) as u8,
            ((len / 0x100) % 0x100) as u8,
            ((len / 0x1_0000) % 0x100) as u8,
            ((len / 0x100_0000) % 0x100) as u8,
        ]
    }
}

/// The instruction that pushes `data`.
pub open spec fn push_data(data: Seq<u8>) -> Seq<u8> {
    push_prefix(data.len()) + data
}

/// `DUP HASH160 <hash> EQUALVERIFY CHECKSIG`.
pub open spec fn p2pkh_script(hash: Seq<u8>) -> Seq<u8> {
    seq![OP_DUP, OP_HASH160] + push_data(hash) + seq![OP_EQUALVERIFY, OP_CHECKSIG]
}

/// `HASH160 <hash> EQUAL`.
pub open spec fn p2sh_script(hash: Seq<u8>) -> Seq<u8> {
    seq![OP_HASH160] + push_data(hash) + seq![OP_EQUAL]
}

/// `<key> CHECKSIG`.
pub open spec fn p2pk_script(key: Seq<u8>) -> Seq<u8> {
    push_data(key) + seq![OP_CHECKSIG]
}

#[verifier::external_type_specification]
#[verifier::external_body]
pub struct ExBuilder(bitcoin::blockdata::script::Builder);

#[verifier::external_type_specification]
#[verifier::external_body]
pub struct ExPushBytesBuf(bitcoin::blockdata::script::PushBytesBuf);

#[verifier::external_type_specification]
#[verifier::external_body]
pub struct ExPushBytesError(bitcoin::blockdata::script::PushBytesError);

#[verifier::external_type_specification]
#[verifier::external_body]
pub struct ExFromSliceError(bitcoin::key::FromSliceError);

/// The bytes of the script that a builder has assembled so far.
pub uninterp spec fn builder_bytes(builder: bitcoin::blockdata::script::Builder) -> Seq<u8>;

/// The bytes that a push buffer holds.
pub uninterp spec fn push_bytes(data: bitcoin::blockdata::script::PushBytesBuf) -> Seq<u8>;

/// The uncompressed serialization of the public key that `key` encodes,
/// where it encodes one: what `bitcoin::PublicKey::from_slice` accepts,
/// written out by `secp256k1::PublicKey::serialize_uncompressed`.
pub uninterp spec fn uncompressed_pubkey(key: Seq<u8>) -> Option<Seq<u8>>;

/// `Builder::new` starts from the empty script.
pub assume_specification[ bitcoin::blockdata::script::Builder::new ]() -> (builder:
    bitcoin::blockdata::script::Builder)
    ensures
        builder_bytes(builder) == Seq::<u8>::empty(),
;

/// `Builder::into_bytes` hands out the assembled script unchanged.
pub assume_specification[ bitcoin::blockdata::script::Builder::into_bytes ](
    builder: bitcoin::blockdata::script::Builder,
) -> (script: Vec<u8>)
    ensures
        script@ == builder_bytes(builder),
;

/// Calls `Builder::push_opcode` with the opcode of number `code`. Trusted:
/// the call appends that one byte to the script.
#[verifier::external_body]
fn push_opcode(builder: bitcoin::blockdata::script::Builder, code: u8) -> (extended:
    bitcoin::blockdata::script::Builder)
    ensures
        builder_bytes(extended) == builder_bytes(builder).push(code),
{
    builder.push_opcode(bitcoin::blockdata::opcodes::Opcode::from(code))
}

/// Calls `Builder::push_slice`. Trusted: the call appends the push
/// instruction for the buffer's bytes, as [`push_data`] writes it.
#[verifier::external_body]
fn push_slice(
    builder: bitcoin::blockdata::script::Builder,
    data: bitcoin::blockdata::script::PushBytesBuf,
) -> (extended: bitcoin::blockdata::script::Builder)
    ensures
        builder_bytes(extended) == builder_bytes(builder) + push_data(push_bytes(data)),
{
    builder.push_slice(data)
}

/// Converts bytes into a push buffer, through `TryFrom<Vec<u8>>` of
/// `PushBytesBuf`. Trusted: the conversion keeps the bytes and succeeds
/// exactly when there are fewer than `2^32` of them.
#[verifier::external_body]
pub(crate) fn into_push_bytes(bytes: Vec<u8>) -> (r: Result<
    bitcoin::blockdata::script::PushBytesBuf,
    bitcoin::blockdata::script::PushBytesError,
>)
    ensures
        match r {
            Ok(data) => push_bytes(data) == bytes@ && bytes@.len() < 0x1_0000_0000,
            Err(_) => bytes@.len() >= 0x1_0000_0000,
        },
{
    bytes.try_into()
}

/// Calls `bitcoin::PublicKey::from_slice` and writes the key out with
/// `serialize_uncompressed`. Trusted: that the outcome is the one named
/// [`uncompressed_pubkey`], and that a key written out has 65 bytes.
#[verifier::external_body]
fn uncompress_key(key: &[u8]) -> (r: Result<Vec<u8>, bitcoin::key::FromSliceError>)
    ensures
        match r {
            Ok(full) => uncompressed_pubkey(key@) == Some(full@) && full@.len() == 65,
            Err(_) => uncompressed_pubkey(key@) is None,
        },
{
    let parsed = bitcoin::PublicKey::from_slice(key)?;
    Ok(parsed.inner.serialize_uncompressed().to_vec())
}

/// The script that pays to the public key `key`, or why it cannot be
/// written.
pub open spec fn pay_to_pubkey_script(key: Seq<u8>) -> Result<Seq<u8>, DecodeError> {
    if key.len() < 0x1_0000_0000 {
        Ok(p2pk_script(key))
    } else {
        Err(DecodeError::PushDataTooLong)
    }
}

/// Builds the script `<key> CHECKSIG`.
pub fn pay_to_pubkey(key: Vec<u8>) -> (r: Result<Vec<u8>, DecodeError>)
    ensures
        match r {
            Ok(script) => pay_to_pubkey_script(key@) == Ok::<Seq<u8>, DecodeError>(script@),
            Err(e) => pay_to_pubkey_script(key@) == Err::<Seq<u8>, DecodeError>(e),
        },
{
    match into_push_bytes(key) {
        Ok(data) => {
            let builder = bitcoin::blockdata::script::Builder::new();
            let builder = push_slice(builder, data);
            let builder = push_opcode(builder, OP_CHECKSIG);
            let script = builder.into_bytes();
            assert(script@ =~= p2pk_script(key@));
            Ok(script)
        },
        Err(_) => Err(DecodeError::PushDataTooLong),
    }
}

/// The script that the compressed form of tag `tag` and payload `payload`
/// stands for.
///
/// A payload of the wrong size for its tag is refused before anything is
/// built. The two hash forms and the two compressed-key forms always give a
/// script; the two uncompressed-key forms give one where the x coordinate,
/// with the parity that the tag carries, is that of a point on the curve.
pub open spec fn decompressed_script(tag: u8, payload: Seq<u8>) -> Result<Seq<u8>, DecodeError> {
    if payload.len() != ScriptForm::of_code(tag as u64).payload_len() {
        Err(DecodeError::BadPayloadLength)
    } else if tag == 0 {
        Ok(p2pkh_script(payload))
    } else if tag == 1 {
        Ok(p2sh_script(payload))
    } else if tag == 2 || tag == 3 {
        Ok(p2pk_script(seq![tag] + payload))
    } else {
        match uncompressed_pubkey(seq![(tag - 2) as u8] + payload) {
            Some(key) => Ok(p2pk_script(key)),
            None => Err(DecodeError::InvalidPublicKey),
        }
    }
}

/// Reconstructs the canonical script from one of the six compressed forms.
/// The script is of the class of its form, and of that class alone.
pub fn decompress_script(script_type: u8, bytes: Vec<u8>) -> (r: Result<Vec<u8>, DecodeError>)
    requires
        script_type < 6,
    ensures
        match r {
            Ok(script) => decompressed_script(script_type, bytes@) == Ok::<Seq<u8>, DecodeError>(
                script@,
            ),
            Err(e) => decompressed_script(script_type, bytes@) == Err::<Seq<u8>, DecodeError>(e),
        },
        r matches Ok(script) ==> {
            &&& script_class(script@) == ScriptForm::of_code(script_type as u64).class()
            &&& is_p2pkh(script@) <==> script_type == 0
            &&& is_p2sh(script@) <==> script_type == 1
            &&& is_p2pk(script@) <==> script_type >= 2
        },
{
    let form = ScriptForm::from_code(script_type as u64);
    if bytes.len() as u64 != form.payload_size() {
        return Err(DecodeError::BadPayloadLength);
    }
    let ghost payload = bytes@;
    let mut bytes = bytes;
    match form {
        ScriptForm::PubkeyHash => {
            match into_push_bytes(bytes) {
                Ok(data) => {
                    let builder = bitcoin::blockdata::script::Builder::new();
                    let builder = push_opcode(builder, OP_DUP);
                    let builder = push_opcode(builder, OP_HASH160);
                    let builder = push_slice(builder, data);
                    let builder = push_opcode(builder, OP_EQUALVERIFY);
                    let builder = push_opcode(builder, OP_CHECKSIG);
                    let script = builder.into_bytes();
                    assert(script@ =~= p2pkh_script(payload));
                    Ok(script)
                },
                Err(_) => Err(DecodeError::PushDataTooLong),
            }
        },
        ScriptForm::ScriptHash => {
            match into_push_bytes(bytes) {
                Ok(data) => {
                    let builder = bitcoin::blockdata::script::Builder::new();
                    let builder = push_opcode(builder, OP_HASH160);
                    let builder = push_slice(builder, data);
                    let builder = push_opcode(builder, OP_EQUAL);
                    let script = builder.into_bytes();
                    assert(script@ =~= p2sh_script(payload));
                    Ok(script)
                },
                Err(_) => Err(DecodeError::PushDataTooLong),
            }
        },
        ScriptForm::CompressedKeyEven | ScriptForm::CompressedKeyOdd => {
            bytes.insert(0, script_type);
            assert(bytes@ =~= seq![script_type] + payload);
            pay_to_pubkey(bytes)
        },
        ScriptForm::UncompressedKeyEven | ScriptForm::UncompressedKeyOdd => {
            bytes.insert(0, script_type - 2);
            assert(bytes@ =~= seq![(script_type - 2) as u8] + payload);
            match uncompress_key(bytes.as_slice()) {
                Ok(key) => pay_to_pubkey(key),
                Err(_) => Err(DecodeError::InvalidPublicKey),
            }
        },
        ScriptForm::RawCopy { .. } => Ok(bytes),
    }
}

/// What decoding a script at the start of `s` gives: the script and the
/// number of bytes it took. A continuation-bit integer announces the form;
/// the payload of that form follows, and is reconstructed unless the form is
/// a raw copy.
pub open spec fn decoded_script(s: Seq<u8>) -> Result<(Seq<u8>, nat), DecodeError> {
    match decoded_varint(s) {
        Err(e) => Err(e),
        Ok((code, n)) => {
            let form = ScriptForm::of_code(code);
            let size = form.payload_len();
            let rest = s.skip(n as int);
            if rest.len() < size {
                Err(DecodeError::UnexpectedEof)
            } else if form is RawCopy {
                Ok((rest.take(size as int), n + size))
            } else {
                match decompressed_script(code as u8, rest.take(size as int)) {
                    Ok(script) => Ok((script, n + size)),
                    Err(e) => Err(e),
                }
            }
        },
    }
}

/// Decodes one script from the start of `data`, and says how many bytes it
/// took.
pub fn decode_script(data: &[u8]) -> (r: Result<(Vec<u8>, usize), DecodeError>)
    ensures
        match r {
            Ok((script, n)) => decoded_script(data@) == Ok::<(Seq<u8>, nat), DecodeError>(
                (script@, n as nat),
            ) && 0 < n <= data@.len(),
            Err(e) => decoded_script(data@) == Err::<(Seq<u8>, nat), DecodeError>(e),
        },
{
    let (code, n) = match decode_varint(data) {
        Ok(read) => read,
        Err(e) => {
            return Err(e);
        },
    };
    let form = ScriptForm::from_code(code);
    let size = form.payload_size();
    if ((data.len() - n) as u64) < size {
        return Err(DecodeError::UnexpectedEof);
    }
    let end: usize = n + size as usize;
    let payload = vstd::slice::slice_to_vec(vstd::slice::slice_subrange(data, n, end));
    assert(payload@ =~= data@.skip(n as int).take(size as int));
    match form {
        ScriptForm::RawCopy { .. } => Ok((payload, end)),
        _ => {
            match decompress_script(code as u8, payload) {
                Ok(script) => Ok((script, end)),
                Err(e) => Err(e),
            }
        },
    }
}

/// The classes of script that a compressed form can stand for.
#[derive(Clone, Copy, Debug, PartialEq, Eq, Structural)]
pub enum ScriptClass {
    /// A public key and a signature check.
    PayToPubkey,
    /// The hash of a public key, to be matched and checked against.
    PayToPubkeyHash,
    /// The hash of a script, to be matched.
    PayToScriptHash,
    /// Anything else.
    Other,
}

/// Whether `s` pushes a key of 33 or 65 bytes and checks a signature
/// against it.
pub open spec fn is_p2pk(s: Seq<u8>) -> bool {
    ||| s.len() == 67 && s[0] == 65 && s[66] == OP_CHECKSIG
    ||| s.len() == 35 && s[0] == 33 && s[34] == OP_CHECKSIG
}

/// Whether `s` is `DUP HASH160 <20 bytes> EQUALVERIFY CHECKSIG`.
pub open spec fn is_p2pkh(s: Seq<u8>) -> bool {
    &&& s.len() == 25
    &&& s[0] == OP_DUP
    &&& s[1] == OP_HASH160
    &&& s[2] == 20
    &&& s[23] == OP_EQUALVERIFY
    &&& s[24] == OP_CHECKSIG
}

/// Whether `s` is `HASH160 <20 bytes> EQUAL`.
pub open spec fn is_p2sh(s: Seq<u8>) -> bool {
    &&& s.len() == 23
    &&& s[0] == OP_HASH160
    &&& s[1] == 20
    &&& s[22] == OP_EQUAL
}

/// The class of the script `s`. No script is in two of the three named
/// classes: their lengths differ.
pub open spec fn script_class(s: Seq<u8>) -> ScriptClass {
    if is_p2pk(s) {
        ScriptClass::PayToPubkey
    } else if is_p2pkh(s) {
        ScriptClass::PayToPubkeyHash
    } else if is_p2sh(s) {
        ScriptClass::PayToScriptHash
    } else {
        ScriptClass::Other
    }
}

/// Calls `bitcoin::Script::is_p2pk` on the script of these bytes. Trusted:
/// the answer is [`is_p2pk`].
#[verifier::external_body]
fn script_is_p2pk(script: &[u8]) -> (r: bool)
    ensures
        r == is_p2pk(script@),
{
    bitcoin::Script::from_bytes(script).is_p2pk()
}

/// Calls `bitcoin::Script::is_p2pkh` on the script of these bytes. Trusted:
/// the answer is [`is_p2pkh`].
#[verifier::external_body]
fn script_is_p2pkh(script: &[u8]) -> (r: bool)
    ensures
        r == is_p2pkh(script@),
{
    bitcoin::Script::from_bytes(script).is_p2pkh()
}

/// Calls `bitcoin::Script::is_p2sh` on the script of these bytes. Trusted:
/// the answer is [`is_p2sh`].
#[verifier::external_body]
fn script_is_p2sh(script: &[u8]) -> (r: bool)
    ensures
        r == is_p2sh(script@),
{
    bitcoin::Script::from_bytes(script).is_p2sh()
}

/// Classifies a script.
pub fn classify_script(script: &[u8]) -> (class: ScriptClass)
    ensures
        class == script_class(script@),
{
    if script_is_p2pk(script) {
        ScriptClass::PayToPubkey
    } else if script_is_p2pkh(script) {
        ScriptClass::PayToPubkeyHash
    } else if script_is_p2sh(script) {
        ScriptClass::PayToScriptHash
    } else {
        ScriptClass::Other
    }
}

impl ScriptForm {
    /// The class of the scripts that this form stands for; a raw copy may be
    /// of any class.
    pub open spec fn class(self) -> ScriptClass {
        match self {
            ScriptForm::PubkeyHash => ScriptClass::PayToPubkeyHash,
            ScriptForm::ScriptHash => ScriptClass::PayToScriptHash,
            ScriptForm::RawCopy { .. } => ScriptClass::Other,
            _ => ScriptClass::PayToPubkey,
        }
    }
}

/// A script reconstructed from a compressed form is of the class of that
/// form, and of that class alone: pay-to-pubkey-hash for tag 0,
/// pay-to-script-hash for tag 1, pay-to-pubkey for tags 2 to 5. For tags 0
/// to 3 every payload of the right size is reconstructed. For tags 4 and 5
/// the key comes from the curve, and the class is that of a script that
/// holds its 65 bytes, as every script that [`decompress_script`] returns
/// does.
pub proof fn lemma_decompressed_script_class(tag: u8, payload: Seq<u8>)
    requires
        tag < 6,
    ensures
        tag < 4 && payload.len() == ScriptForm::of_code(tag as u64).payload_len()
            ==> decompressed_script(tag, payload) is Ok,
        decompressed_script(tag, payload) matches Ok(script) ==> (tag < 4 || script.len() == 67)
            ==> {
            &&& script_class(script) == ScriptForm::of_code(tag as u64).class()
            &&& is_p2pkh(script) <==> tag == 0
            &&& is_p2sh(script) <==> tag == 1
            &&& is_p2pk(script) <==> tag >= 2
        },
{
}

} // verus!
