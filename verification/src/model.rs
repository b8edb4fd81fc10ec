//! What the node knows of itself, and the identifier of a function.

use crate::bytes::{append, has_prefix, starts_with};
use crate::encoding::{
    base32_decoded, base32_encoded, base32_nopad_decode, base32_round_trip, hex_decode_exact, hex_decoded_exact, hex_lower,
    hexlower_encode, DecodeError, DecodeKind,
};
use vstd::prelude::*;
use vstd::slice::slice_subrange;
use vstd::string::{StringExecFns, StringSliceAdditionalSpecFns};

verus! {

/// The settings that every request reads and none changes.
#[derive(Debug)]
pub struct AppState {
    /// The directory of the sandbox binary, the code files and the configs.
    pub runtime_path: String,
    /// The endpoint that answers for the chain.
    pub rpc: String,
    /// The contract that deployments must go to, in lowercase hexadecimal.
    pub contract: String,
    /// The raw bytes of the key that signs answers and bills.
    pub signer: Vec<u8>,
}

impl AppState {
    /// Puts the settings together. Bytes that are no signing key give no
    /// settings.
    pub fn new(runtime_path: String, rpc: String, contract: String, signer: Vec<u8>) -> (res:
        Option<AppState>)
        ensures
            match res {
                Some(state) => {
                    &&& crate::signing::is_signing_key(signer@)
                    &&& state.runtime_path == runtime_path
                    &&& state.rpc == rpc
                    &&& state.contract == contract
                    &&& state.signer == signer
                },
                None => !crate::signing::is_signing_key(signer@),
            },
    {
        if crate::signing::signing_key_valid(signer.as_slice()) {
            Some(AppState { runtime_path, rpc, contract, signer })
        } else {
            None
        }
    }
}

/// The number of bytes of a function's identifier.
pub const ID_BYTES: usize = 32;

/// The number of characters of the label that spells an identifier.
pub const LABEL_CHARS: usize = 52;

/// The identifier of a function: the hash of the transaction that deployed
/// it, always 32 bytes.
#[derive(Debug)]
pub struct FunctionId {
    bytes: Vec<u8>,
}

impl View for FunctionId {
    type V = Seq<u8>;

    closed spec fn view(&self) -> Seq<u8> {
        self.bytes@
    }
}

/// A small letter as its capital; any other byte as it is.
pub open spec fn upper(b: u8) -> u8 {
    if 97 <= b <= 122 {
        (b - 32) as u8
    } else {
        b
    }
}

/// The label with its small letters made capitals.
pub open spec fn uppercase(label: Seq<u8>) -> Seq<u8> {
    label.map_values(|b: u8| upper(b))
}

/// What a host label gives as an identifier. The label is read without
/// regard to case as unpadded Base32, and what it spells must be 32 bytes: a
/// text that spells more or less is refused for its length, at the length an
/// identifier's label has or at its own end, whichever comes first.
pub open spec fn label_decoded(label: Seq<u8>) -> Result<Seq<u8>, DecodeError> {
    if label.len() > usize::MAX / 8 {
        Err(DecodeError { position: LABEL_CHARS, kind: DecodeKind::Length })
    } else {
        match base32_decoded(uppercase(label)) {
            Err(e) => Err(e),
            Ok(bytes) => if bytes.len() == ID_BYTES {
                Ok(bytes)
            } else {
                Err(
                    DecodeError {
                        position: if label.len() < LABEL_CHARS {
                            label.len() as usize
                        } else {
                            LABEL_CHARS
                        },
                        kind: DecodeKind::Length,
                    },
                )
            },
        }
    }
}

/// The text that names an identifier in paths and in the ledger: `0x` and 64
/// lowercase hexadecimal digits.
pub open spec fn id_hex(id: Seq<u8>) -> Seq<char> {
    "0x"@ + hex_lower(id)
}

/// A byte is a digit or one of the small letters `a` to `f`.
pub open spec fn is_lower_hex(b: u8) -> bool {
    48 <= b <= 57 || 97 <= b <= 102
}

/// What a hexadecimal name gives as an identifier: it must be `0x` and then
/// exactly 64 digits, with no capital among them.
pub open spec fn hex_name_decoded(text: Seq<u8>) -> Option<Seq<u8>> {
    if has_prefix(text, "0x".spec_bytes()) && (forall|i: int|
        2 <= i < text.len() ==> is_lower_hex(#[trigger] text[i])) {
        match hex_decoded_exact(text.subrange(2, text.len() as int), ID_BYTES as nat) {
            Ok(id) => Some(id),
            Err(_) => None,
        }
    } else {
        None
    }
}

impl FunctionId {
    #[verifier::type_invariant]
    spec fn is_whole(self) -> bool {
        self.bytes@.len() == ID_BYTES
    }

    /// The 32 bytes of the identifier.
    pub fn as_bytes(&self) -> (bytes: &Vec<u8>)
        ensures
            bytes@ == self@,
            bytes@.len() == 32,
    {
        proof {
            use_type_invariant(self);
        }
        &self.bytes
    }

    /// Reads an identifier from the first label of a host name.
    pub fn from_label(label: &[u8]) -> (res: Result<FunctionId, DecodeError>)
        ensures
            match label_decoded(label@) {
                Ok(id) => res is Ok && res->Ok_0@ == id,
                Err(e) => res == Err::<FunctionId, DecodeError>(e),
            },
    {
        if label.len() > usize::MAX / 8 {
            return Err(DecodeError { position: LABEL_CHARS, kind: DecodeKind::Length });
        }
        let mut text: Vec<u8> = Vec::new();
        let mut i: usize = 0;
        while i < label.len()
            invariant
                i <= label.len(),
                text@ == uppercase(label@).subrange(0, i as int),
            decreases label.len() - i,
        {
            let b = label[i];
            text.push(
                if 97 <= b && b <= 122 {
                    b - 32
                } else {
                    b
                },
            );
            assert(text@ =~= uppercase(label@).subrange(0, i + 1));
            i += 1;
        }
        assert(text@ =~= uppercase(label@));
        match base32_nopad_decode(text.as_slice()) {
            Err(e) => Err(e),
            Ok(bytes) => {
                if bytes.len() == ID_BYTES {
                    Ok(FunctionId { bytes })
                } else {
                    Err(
                        DecodeError {
                            position: if label.len() < LABEL_CHARS {
                                label.len()
                            } else {
                                LABEL_CHARS
                            },
                            kind: DecodeKind::Length,
                        },
                    )
                }
            },
        }
    }

    /// Takes 32 bytes as an identifier; any other number of bytes is none.
    pub fn from_bytes(bytes: &[u8]) -> (res: Option<FunctionId>)
        ensures
            match res {
                Some(id) => bytes@.len() == ID_BYTES && id@ == bytes@,
                None => bytes@.len() != ID_BYTES,
            },
    {
        if bytes.len() != ID_BYTES {
            return None;
        }
        let mut copy: Vec<u8> = Vec::new();
        append(&mut copy, bytes);
        Some(FunctionId { bytes: copy })
    }

    /// Reads an identifier from its hexadecimal name.
    pub fn from_hex(text: &str) -> (res: Option<FunctionId>)
        ensures
            match hex_name_decoded(text.spec_bytes()) {
                Some(id) => res is Some && res->Some_0@ == id,
                None => res is None,
            },
    {
        let bytes = text.as_bytes();
        if !starts_with(bytes, "0x".as_bytes()) {
            return None;
        }
        assert(bytes@.len() >= 2) by {
            reveal_strlit("0x");
            vstd::string::is_ascii_spec_bytes("0x");
            assert("0x"@.len() == 2);
            assert(vstd::utf8::is_ascii_chars("0x"@));
        }
        let mut i: usize = 2;
        while i < bytes.len()
            invariant
                2 <= i <= bytes.len(),
                bytes@ == text.spec_bytes(),
                has_prefix(bytes@, "0x".spec_bytes()),
                forall|j: int| 2 <= j < i ==> is_lower_hex(#[trigger] bytes@[j]),
            decreases bytes.len() - i,
        {
            let b = bytes[i];
            if !((48 <= b && b <= 57) || (97 <= b && b <= 102)) {
                assert(!is_lower_hex(bytes@[i as int]));
                return None;
            }
            i += 1;
        }
        match hex_decode_exact(slice_subrange(bytes, 2, bytes.len()), ID_BYTES) {
            Ok(id) => Some(FunctionId { bytes: id }),
            Err(_) => None,
        }
    }

    /// The hexadecimal name of the identifier.
    pub fn to_hex(&self) -> (text: String)
        ensures
            text@ == id_hex(self@),
    {
        proof {
            use_type_invariant(self);
        }
        let digits = hexlower_encode(self.bytes.as_slice());
        let mut text = String::from_str("0x");
        text.append(digits.as_str());
        text
    }

    /// A copy of the identifier.
    pub fn duplicate(&self) -> (copy: FunctionId)
        ensures
            copy@ == self@,
    {
        proof {
            use_type_invariant(self);
        }
        let mut bytes: Vec<u8> = Vec::new();
        append(&mut bytes, self.bytes.as_slice());
        FunctionId { bytes }
    }

    /// Tells whether two identifiers are the same.
    pub fn same(&self, other: &FunctionId) -> (res: bool)
        ensures
            res == (self@ == other@),
    {
        crate::bytes::equal(self.bytes.as_slice(), other.bytes.as_slice())
    }
}

/// Reading an identifier from a host label and spelling it again in unpadded
/// Base32 gives the label in capitals.
pub proof fn label_round_trip(label: Seq<u8>)
    requires
        label_decoded(label) is Ok,
    ensures
        base32_encoded(label_decoded(label)->Ok_0) == uppercase(label),
{
    base32_round_trip(uppercase(label));
}

} // verus!
