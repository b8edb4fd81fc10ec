//! What can go wrong while a request is served, and how it is reported to
//! the client.

use crate::bytes::append;
use crate::cgroups::CgroupsError;
use crate::encoding::{decimal_bytes, decimal_digits, HexError, NumberError};
use vstd::prelude::*;
use vstd::string::StringSliceAdditionalSpecFns;
use vstd::utf8::encode_utf8;

verus! {

/// A failure on the way from a request to its sandbox.
#[derive(Debug)]
pub enum ServerlessError {
    /// The deployment transaction could not be fetched; holds the cause.
    CalldataRetrieve(String),
    /// The chain knows no such transaction.
    TxNotFound,
    /// The transaction has no textual `to` field.
    InvalidTxToType,
    /// The transaction went to another contract: the address found, then the
    /// address expected.
    InvalidTxToValue(String, String),
    /// The transaction has no textual `input` field.
    InvalidTxCalldataType,
    /// The calldata is no hexadecimal text.
    BadCalldata(HexError),
    /// The code file could not be written; holds the cause.
    CodeFileCreate(String),
    /// The config file could not be written; holds the cause.
    ConfigFileCreate(String),
    /// The sandbox could not be started.
    Execute(CgroupsError),
    /// The sandbox could not be stopped; holds the cause.
    Terminate(String),
    /// A code file could not be removed; holds the cause.
    CodeFileDelete(String),
    /// The config file could not be removed; holds the cause.
    ConfigFileDelete(String),
    /// The slot's name gives no port.
    BadPort(NumberError),
    /// The code files could not be counted; holds the cause.
    CodeFileCount(String),
    /// The code file's times could not be set; holds the cause.
    UpdateModifiedTime(String),
}

/// The text that `hex` prints for a decoding error.
pub uninterp spec fn hex_error_display(e: HexError) -> Seq<char>;

/// Asks `hex::FromHexError` for its `Display` text. The text is named; for
/// the two errors that carry no data the source gives it in full.
#[verifier::external_body]
pub(crate) fn hex_error_text(e: HexError) -> (text: String)
    ensures
        text@ == hex_error_display(e),
        e == HexError::OddLength ==> text@ == "Odd number of digits"@,
        e == HexError::InvalidStringLength ==> text@ == "Invalid string length"@,
{
    match e {
        HexError::InvalidHexCharacter { c, index } => hex::FromHexError::InvalidHexCharacter {
            c,
            index,
        },
        HexError::OddLength => hex::FromHexError::OddLength,
        HexError::InvalidStringLength => hex::FromHexError::InvalidStringLength,
    }.to_string()
}

/// The sequences held by a vector of byte strings.
pub open spec fn lines(v: Seq<Vec<u8>>) -> Seq<Seq<u8>> {
    v.map_values(|x: Vec<u8>| x@)
}

/// What is said of a number that could not be read.
pub open spec fn number_error_message(e: NumberError) -> Seq<u8> {
    match e {
        NumberError::Empty => "cannot parse integer from empty string".spec_bytes(),
        NumberError::InvalidDigit => "invalid digit found in string".spec_bytes(),
        NumberError::TooLarge => "number too large to fit in target type".spec_bytes(),
    }
}

/// What a pool error says of itself.
pub open spec fn cgroups_message(e: CgroupsError) -> Seq<u8> {
    match e {
        CgroupsError::Fetch(_) => "failed to retrieve cgroups".spec_bytes(),
        CgroupsError::NoFree => "no free cgroups left".spec_bytes(),
        CgroupsError::Execute(_) => "failed to execute cgroups".spec_bytes(),
    }
}

/// What lies behind a pool error.
pub open spec fn cgroups_causes(e: CgroupsError) -> Seq<Seq<u8>> {
    match e {
        CgroupsError::Fetch(cause) => seq![encode_utf8(cause@)],
        CgroupsError::NoFree => Seq::empty(),
        CgroupsError::Execute(cause) => seq![encode_utf8(cause@)],
    }
}

impl ServerlessError {
    /// What the error says of itself.
    pub open spec fn message(self) -> Seq<u8> {
        match self {
            ServerlessError::CalldataRetrieve(_) => "failed to retrieve calldata".spec_bytes(),
            ServerlessError::TxNotFound => "tx not found".spec_bytes(),
            ServerlessError::InvalidTxToType => "to field of transaction is not an address"
                .spec_bytes(),
            ServerlessError::InvalidTxToValue(found, expected) => "to address ".spec_bytes()
                + encode_utf8(found@) + " does not match expected ".spec_bytes() + encode_utf8(
                expected@,
            ),
            ServerlessError::InvalidTxCalldataType =>
                "calldata field of transaction is not a string".spec_bytes(),
            ServerlessError::BadCalldata(_) => "calldata is not a valid hex string".spec_bytes(),
            ServerlessError::CodeFileCreate(_) => "failed to create code file".spec_bytes(),
            ServerlessError::ConfigFileCreate(_) => "failed to create config file".spec_bytes(),
            ServerlessError::Execute(_) => "failed to execute workerd".spec_bytes(),
            ServerlessError::Terminate(_) => "failed to terminate workerd".spec_bytes(),
            ServerlessError::CodeFileDelete(_) => "failed to delete code file".spec_bytes(),
            ServerlessError::ConfigFileDelete(_) => "failed to delete config file".spec_bytes(),
            ServerlessError::BadPort(_) => "failed to retrieve port from cgroup".spec_bytes(),
            ServerlessError::CodeFileCount(_) => "failed to retrieve number of code files"
                .spec_bytes(),
            ServerlessError::UpdateModifiedTime(_) => "failed to update modified time of file"
                .spec_bytes(),
        }
    }

    /// What lies behind the error, the nearest cause first.
    pub open spec fn causes(self) -> Seq<Seq<u8>> {
        match self {
            ServerlessError::CalldataRetrieve(cause) => seq![encode_utf8(cause@)],
            ServerlessError::TxNotFound => Seq::empty(),
            ServerlessError::InvalidTxToType => Seq::empty(),
            ServerlessError::InvalidTxToValue(_, _) => Seq::empty(),
            ServerlessError::InvalidTxCalldataType => Seq::empty(),
            ServerlessError::BadCalldata(e) => seq![encode_utf8(hex_error_display(e))],
            ServerlessError::CodeFileCreate(cause) => seq![encode_utf8(cause@)],
            ServerlessError::ConfigFileCreate(cause) => seq![encode_utf8(cause@)],
            ServerlessError::Execute(e) => seq![cgroups_message(e)] + cgroups_causes(e),
            ServerlessError::Terminate(cause) => seq![encode_utf8(cause@)],
            ServerlessError::CodeFileDelete(cause) => seq![encode_utf8(cause@)],
            ServerlessError::ConfigFileDelete(cause) => seq![encode_utf8(cause@)],
            ServerlessError::BadPort(e) => seq![number_error_message(e)],
            ServerlessError::CodeFileCount(cause) => seq![encode_utf8(cause@)],
            ServerlessError::UpdateModifiedTime(cause) => seq![encode_utf8(cause@)],
        }
    }

    /// The error's own message, then what lies behind it.
    pub open spec fn chain_spec(self) -> Seq<Seq<u8>> {
        seq![self.message()] + self.causes()
    }

    /// The error's own message, then what lies behind it.
    pub fn chain(&self) -> (out: Vec<Vec<u8>>)
        ensures
            lines(out@) == self.chain_spec(),
    {
        let mut out: Vec<Vec<u8>> = Vec::new();
        match self {
            ServerlessError::CalldataRetrieve(cause) => {
                out.push(owned("failed to retrieve calldata"));
                out.push(owned(cause.as_str()));
            },
            ServerlessError::TxNotFound => {
                out.push(owned("tx not found"));
            },
            ServerlessError::InvalidTxToType => {
                out.push(owned("to field of transaction is not an address"));
            },
            ServerlessError::InvalidTxToValue(found, expected) => {
                let mut m = owned("to address ");
                append(&mut m, found.as_str().as_bytes());
                append(&mut m, " does not match expected ".as_bytes());
                append(&mut m, expected.as_str().as_bytes());
                out.push(m);
            },
            ServerlessError::InvalidTxCalldataType => {
                out.push(owned("calldata field of transaction is not a string"));
            },
            ServerlessError::BadCalldata(e) => {
                out.push(owned("calldata is not a valid hex string"));
                let text = hex_error_text(*e);
                out.push(owned(text.as_str()));
            },
            ServerlessError::CodeFileCreate(cause) => {
                out.push(owned("failed to create code file"));
                out.push(owned(cause.as_str()));
            },
            ServerlessError::ConfigFileCreate(cause) => {
                out.push(owned("failed to create config file"));
                out.push(owned(cause.as_str()));
            },
            ServerlessError::Execute(e) => {
                out.push(owned("failed to execute workerd"));
                match e {
                    CgroupsError::Fetch(cause) => {
                        out.push(owned("failed to retrieve cgroups"));
                        out.push(owned(cause.as_str()));
                    },
                    CgroupsError::NoFree => {
                        out.push(owned("no free cgroups left"));
                    },
                    CgroupsError::Execute(cause) => {
                        out.push(owned("failed to execute cgroups"));
                        out.push(owned(cause.as_str()));
                    },
                }
            },
            ServerlessError::Terminate(cause) => {
                out.push(owned("failed to terminate workerd"));
                out.push(owned(cause.as_str()));
            },
            ServerlessError::CodeFileDelete(cause) => {
                out.push(owned("failed to delete code file"));
                out.push(owned(cause.as_str()));
            },
            ServerlessError::ConfigFileDelete(cause) => {
                out.push(owned("failed to delete config file"));
                out.push(owned(cause.as_str()));
            },
            ServerlessError::BadPort(e) => {
                out.push(owned("failed to retrieve port from cgroup"));
                match e {
                    NumberError::Empty => {
                        out.push(owned("cannot parse integer from empty string"));
                    },
                    NumberError::InvalidDigit => {
                        out.push(owned("invalid digit found in string"));
                    },
                    NumberError::TooLarge => {
                        out.push(owned("number too large to fit in target type"));
                    },
                }
            },
            ServerlessError::CodeFileCount(cause) => {
                out.push(owned("failed to retrieve number of code files"));
                out.push(owned(cause.as_str()));
            },
            ServerlessError::UpdateModifiedTime(cause) => {
                out.push(owned("failed to update modified time of file"));
                out.push(owned(cause.as_str()));
            },
        }
        assert(lines(out@) =~= self.chain_spec());
        out
    }
}

/// The bytes of a text, as a vector of its own.
pub fn owned(text: &str) -> (out: Vec<u8>)
    ensures
        out@ == text.spec_bytes(),
{
    let mut out: Vec<u8> = Vec::new();
    append(&mut out, text.as_bytes());
    out
}

/// `s` moved to the right end of a field of `width` places, with spaces
/// before it; as it is when it is wider.
pub open spec fn pad_left(s: Seq<u8>, width: nat) -> Seq<u8> {
    if s.len() >= width {
        s
    } else {
        Seq::new((width - s.len()) as nat, |i: int| 32u8) + s
    }
}

/// What stands before cause `i`: four spaces where it is the only one, else
/// its number in a field of five places and a colon.
pub open spec fn cause_lead(i: nat, many: bool) -> Seq<u8> {
    if many {
        pad_left(decimal_digits(i), 5) + ": ".spec_bytes()
    } else {
        "    ".spec_bytes()
    }
}

/// What stands before each further line of a cause that runs over several
/// lines: as many spaces as the lead is wide.
pub open spec fn cause_indent(many: bool) -> Seq<u8> {
    if many {
        "       ".spec_bytes()
    } else {
        "    ".spec_bytes()
    }
}

/// A cause as it is written: every line break in it is followed by the
/// indent, so that its further lines stand below its first.
pub open spec fn indented(cause: Seq<u8>, many: bool) -> Seq<u8>
    decreases cause.len(),
{
    if cause.len() == 0 {
        Seq::empty()
    } else if cause.last() == 10 {
        indented(cause.drop_last(), many) + seq![10u8] + cause_indent(many)
    } else {
        indented(cause.drop_last(), many) + seq![cause.last()]
    }
}

/// The first `n` causes, each on a line of its own behind its lead.
pub open spec fn cause_block(causes: Seq<Seq<u8>>, n: nat) -> Seq<u8>
    decreases n,
{
    if n == 0 {
        Seq::empty()
    } else {
        cause_block(causes, (n - 1) as nat) + "\n".spec_bytes() + cause_lead(
            (n - 1) as nat,
            causes.len() > 1,
        ) + indented(causes[n - 1], causes.len() > 1)
    }
}

/// Writes a cause, with the indent behind every line break in it.
pub fn write_indented(out: &mut Vec<u8>, cause: &[u8], many: bool)
    ensures
        final(out)@ == old(out)@ + indented(cause@, many),
{
    let mut i: usize = 0;
    assert(cause@.subrange(0, 0) =~= Seq::<u8>::empty());
    assert(out@ =~= old(out)@ + indented(cause@.subrange(0, 0), many));
    while i < cause.len()
        invariant
            i <= cause.len(),
            out@ == old(out)@ + indented(cause@.subrange(0, i as int), many),
        decreases cause.len() - i,
    {
        let ghost before = out@;
        let ghost upto = cause@.subrange(0, i + 1);
        proof {
            assert(upto.drop_last() =~= cause@.subrange(0, i as int));
            assert(upto.last() == cause@[i as int]);
        }
        out.push(cause[i]);
        if cause[i] == 10 {
            if many {
                append(out, "       ".as_bytes());
            } else {
                append(out, "    ".as_bytes());
            }
            assert(out@ =~= before + seq![10u8] + cause_indent(many));
        } else {
            assert(out@ =~= before + seq![cause@[i as int]]);
        }
        assert(out@ =~= old(out)@ + indented(upto, many));
        i += 1;
    }
    assert(cause@.subrange(0, i as int) =~= cause@);
}

/// A report: what was being done, and below it what went wrong, the nearest
/// cause first, the further lines of a cause indented below its first.
/// Without causes the report is the context alone.
pub open spec fn report_spec(context: Seq<u8>, causes: Seq<Seq<u8>>) -> Seq<u8> {
    if causes.len() == 0 {
        context
    } else {
        context + "\n\nCaused by:".spec_bytes() + cause_block(causes, causes.len())
    }
}

/// Writes the report of `causes` under `context`.
pub fn report(context: &str, causes: &Vec<Vec<u8>>) -> (out: Vec<u8>)
    ensures
        out@ == report_spec(context.spec_bytes(), lines(causes@)),
{
    let mut out = owned(context);
    if causes.len() == 0 {
        return out;
    }
    append(&mut out, "\n\nCaused by:".as_bytes());
    let many = causes.len() > 1;
    let ghost head = out@;
    let mut i: usize = 0;
    assert(out@ =~= head + cause_block(lines(causes@), 0));
    while i < causes.len()
        invariant
            i <= causes.len(),
            many == (causes.len() > 1),
            out@ == head + cause_block(lines(causes@), i as nat),
        decreases causes.len() - i,
    {
        let ghost before = out@;
        append(&mut out, "\n".as_bytes());
        if many {
            let digits = decimal_bytes(i as u64);
            let mut pad: usize = digits.len();
            let ghost at_pad = out@;
            while pad < 5
                invariant
                    digits@.len() <= pad,
                    pad <= 5 || pad == digits@.len(),
                    out@.len() == at_pad.len() + (pad - digits@.len()),
                    forall|j: int| 0 <= j < at_pad.len() ==> out@[j] == at_pad[j],
                    forall|j: int| at_pad.len() <= j < out@.len() ==> out@[j] == 32u8,
                decreases 5 - pad,
            {
                out.push(32u8);
                pad += 1;
            }
            append(&mut out, digits.as_slice());
            assert(out@ =~= at_pad + pad_left(digits@, 5));
            append(&mut out, ": ".as_bytes());
        } else {
            append(&mut out, "    ".as_bytes());
        }
        write_indented(&mut out, causes[i].as_slice(), many);
        proof {
            assert(lines(causes@)[i as int] == causes@[i as int]@);
            assert(out@ =~= before + "\n".spec_bytes() + cause_lead(i as nat, many) + indented(
                causes@[i as int]@,
                many,
            ));
            assert(out@ =~= head + cause_block(lines(causes@), (i + 1) as nat));
        }
        i += 1;
    }
    out
}

/// The report of an error under `context`.
pub fn report_error(context: &str, error: &ServerlessError) -> (out: Vec<u8>)
    ensures
        out@ == report_spec(context.spec_bytes(), error.chain_spec()),
{
    let causes = error.chain();
    report(context, &causes)
}

} // verus!
