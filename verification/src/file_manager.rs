//! The code cache: the code of each function is kept in a file of the runtime
//! directory, fetched from the chain on first use and evicted oldest first.

use crate::bytes::{append, ends_with, has_prefix, has_suffix, starts_with};
use crate::encoding::{decimal_bytes, decimal_digits, hex_decode, hex_decoded, HexError};
use crate::error::{owned, ServerlessError};
use crate::model::{id_hex, FunctionId};
use crate::workerd::{code_path, config_path, config_path_spec, temp_path};
use vstd::prelude::*;
use vstd::slice::slice_subrange;
use vstd::string::StringSliceAdditionalSpecFns;
use vstd::utf8::encode_utf8;

verus! {

/// The number of code files at which one is evicted before another is made.
pub const MAX_CODE_FILES: usize = 40;

/// The number of characters of the calldata that stand before the code: the
/// `0x`, the selector and two words.
pub const CALLDATA_SKIP: usize = 138;

/// How often a request looks for the code file that another request is
/// writing.
pub const MAX_POLLS: u32 = 30;

/// The pause before each such look, in milliseconds.
pub const POLL_MILLIS: u64 = 50;

/// One entry of the runtime directory: its name, whether it is a regular
/// file, and when it was last modified, in nanoseconds since the epoch.
#[derive(Debug)]
pub struct DirEntry {
    pub name: String,
    pub is_file: bool,
    pub modified: u128,
}

/// A code file's name begins with `0x` and ends with `.js`.
pub open spec fn is_code_file_name(name: Seq<u8>) -> bool {
    has_prefix(name, "0x".spec_bytes()) && has_suffix(name, ".js".spec_bytes())
}

/// An entry is a code file when it is a regular file with a code file's name.
pub open spec fn is_code_file(entry: DirEntry) -> bool {
    entry.is_file && is_code_file_name(encode_utf8(entry.name@))
}

/// The number of code files among the entries.
pub open spec fn code_file_count(entries: Seq<DirEntry>) -> nat {
    entries.filter(|e: DirEntry| is_code_file(e)).len()
}

/// Entry `i` is the code file that was modified longest ago, and the first
/// such in the listing.
pub open spec fn is_oldest_code_file(entries: Seq<DirEntry>, i: int) -> bool {
    &&& 0 <= i < entries.len()
    &&& is_code_file(entries[i])
    &&& forall|j: int|
        0 <= j < entries.len() && is_code_file(#[trigger] entries[j]) ==> {
            ||| entries[i].modified < entries[j].modified
            ||| entries[i].modified == entries[j].modified && i <= j
        }
}

/// Tells whether the entry is a code file.
pub fn entry_is_code_file(entry: &DirEntry) -> (res: bool)
    ensures
        res == is_code_file(*entry),
{
    let name = entry.name.as_str().as_bytes();
    entry.is_file && starts_with(name, "0x".as_bytes()) && ends_with(name, ".js".as_bytes())
}

/// Counts the code files among the entries of the runtime directory.
pub fn get_number_of_code_files(entries: &Vec<DirEntry>) -> (count: usize)
    ensures
        count == code_file_count(entries@),
{
    let ghost pred = |e: DirEntry| is_code_file(e);
    let mut count: usize = 0;
    let mut i: usize = 0;
    proof {
        reveal(Seq::filter);
        assert(entries@.subrange(0, 0) =~= Seq::<DirEntry>::empty());
    }
    while i < entries.len()
        invariant
            i <= entries.len(),
            pred == (|e: DirEntry| is_code_file(e)),
            count == entries@.subrange(0, i as int).filter(pred).len(),
            count <= i,
        decreases entries.len() - i,
    {
        let counts = entry_is_code_file(&entries[i]);
        proof {
            reveal(Seq::filter);
            let upto = entries@.subrange(0, i + 1);
            assert(upto.drop_last() =~= entries@.subrange(0, i as int));
            assert(upto.last() == entries@[i as int]);
        }
        if counts {
            count += 1;
        }
        i += 1;
    }
    assert(entries@.subrange(0, i as int) =~= entries@);
    count
}

/// Among no entries there is no code file; where the count is not zero, one
/// of the entries is a code file.
pub proof fn code_file_count_facts(entries: Seq<DirEntry>)
    ensures
        code_file_count(entries) <= entries.len(),
        code_file_count(entries) > 0 <==> exists|i: int|
            0 <= i < entries.len() && is_code_file(#[trigger] entries[i]),
    decreases entries.len(),
{
    reveal(Seq::filter);
    let pred = |e: DirEntry| is_code_file(e);
    if entries.len() > 0 {
        let rest = entries.drop_last();
        code_file_count_facts(rest);
        if is_code_file(entries.last()) {
            assert(is_code_file(entries[entries.len() - 1]));
        } else if code_file_count(rest) > 0 {
            let i = choose|i: int| 0 <= i < rest.len() && is_code_file(#[trigger] rest[i]);
            assert(is_code_file(entries[i]));
        } else {
            assert forall|i: int| 0 <= i < entries.len() implies !is_code_file(
                #[trigger] entries[i],
            ) by {
                if i < rest.len() {
                    assert(rest[i] == entries[i]);
                }
            }
        }
    }
}

/// Picks the code file to evict: the one modified longest ago, the first in
/// the listing among equals. `None` where the listing holds no code file.
pub fn delete_oldest_code_file(entries: &Vec<DirEntry>) -> (res: Option<usize>)
    ensures
        match res {
            Some(i) => is_oldest_code_file(entries@, i as int),
            None => code_file_count(entries@) == 0,
        },
{
    let mut best: Option<usize> = None;
    let mut i: usize = 0;
    while i < entries.len()
        invariant
            i <= entries.len(),
            match best {
                Some(b) => is_oldest_code_file(entries@.subrange(0, i as int), b as int),
                None => forall|j: int| 0 <= j < i ==> !is_code_file(#[trigger] entries@[j]),
            },
        decreases entries.len() - i,
    {
        let ghost before = entries@.subrange(0, i as int);
        let ghost after = entries@.subrange(0, i + 1);
        let counts = entry_is_code_file(&entries[i]);
        let older = match best {
            Some(b) => entries[i].modified < entries[b].modified,
            None => true,
        };
        proof {
            assert forall|j: int| 0 <= j < i implies after[j] == before[j] by {}
        }
        if counts && older {
            best = Some(i);
            proof {
                assert forall|j: int|
                    0 <= j < after.len() && is_code_file(#[trigger] after[j]) implies {
                    ||| after[i as int].modified < after[j].modified
                    ||| after[i as int].modified == after[j].modified && i <= j
                } by {
                    if j < i {
                        assert(is_code_file(before[j]));
                    }
                }
            }
        } else {
            proof {
                match best {
                    Some(b) => {
                        assert forall|j: int|
                            0 <= j < after.len() && is_code_file(#[trigger] after[j]) implies {
                            ||| after[b as int].modified < after[j].modified
                            ||| after[b as int].modified == after[j].modified && b <= j
                        } by {
                            if j < i {
                                assert(is_code_file(before[j]));
                            }
                        }
                    },
                    None => {},
                }
            }
        }
        i += 1;
    }
    proof {
        assert(entries@.subrange(0, i as int) =~= entries@);
        if best is None {
            code_file_count_facts(entries@);
        }
    }
    best
}

/// `s` without the zero bytes at its end.
pub open spec fn strip_trailing_zeros(s: Seq<u8>) -> Seq<u8>
    decreases s.len(),
{
    if s.len() == 0 || s.last() != 0 {
        s
    } else {
        strip_trailing_zeros(s.drop_last())
    }
}

/// The code that a deployment's calldata carries: the characters behind the
/// first 138 are hexadecimal digits, and the bytes they stand for are the code
/// followed by zero bytes that fill the last word.
pub open spec fn code_of_calldata(input: Seq<u8>) -> Result<Seq<u8>, HexError> {
    if input.len() < CALLDATA_SKIP {
        Err(HexError::InvalidStringLength)
    } else {
        match hex_decoded(input.subrange(CALLDATA_SKIP as int, input.len() as int)) {
            Ok(bytes) => Ok(strip_trailing_zeros(bytes)),
            Err(e) => Err(e),
        }
    }
}

/// Removes the zero bytes at the end of `bytes`.
pub fn strip_zeros(bytes: &mut Vec<u8>)
    ensures
        final(bytes)@ == strip_trailing_zeros(old(bytes)@),
{
    let mut n: usize = bytes.len();
    assert(bytes@.subrange(0, n as int) =~= bytes@);
    while n > 0 && bytes[n - 1] == 0
        invariant
            n <= bytes.len(),
            *bytes == *old(bytes),
            strip_trailing_zeros(bytes@) == strip_trailing_zeros(bytes@.subrange(0, n as int)),
        decreases n,
    {
        proof {
            let cut = bytes@.subrange(0, n as int);
            assert(cut.drop_last() =~= bytes@.subrange(0, n - 1));
        }
        n -= 1;
    }
    bytes.truncate(n);
}

/// Reads the code out of a deployment's calldata.
pub fn decode_call_data(input: &str) -> (res: Result<Vec<u8>, ServerlessError>)
    ensures
        match code_of_calldata(input.spec_bytes()) {
            Ok(code) => res is Ok && res->Ok_0@ == code,
            Err(e) => res == Err::<Vec<u8>, ServerlessError>(ServerlessError::BadCalldata(e)),
        },
{
    let text = input.as_bytes();
    if text.len() < CALLDATA_SKIP {
        return Err(ServerlessError::BadCalldata(HexError::InvalidStringLength));
    }
    match hex_decode(slice_subrange(text, CALLDATA_SKIP, text.len())) {
        Ok(mut bytes) => {
            strip_zeros(&mut bytes);
            Ok(bytes)
        },
        Err(e) => Err(ServerlessError::BadCalldata(e)),
    }
}

/// What the chain says of a transaction: the contract it went to and its
/// calldata, each `None` where the field is absent or no text.
#[derive(Debug)]
pub struct Transaction {
    pub to: Option<String>,
    pub input: Option<String>,
}

/// What a looked-up transaction yields for the contract `contract`: its code,
/// or the first reason to refuse it. `None` stands for a transaction that the
/// chain does not know.
pub open spec fn checked_code(tx: Option<Transaction>, contract: String) -> Result<
    Seq<u8>,
    ServerlessError,
> {
    match tx {
        None => Err(ServerlessError::TxNotFound),
        Some(tx) => match tx.to {
            None => Err(ServerlessError::InvalidTxToType),
            Some(to) => if to@ != contract@ {
                Err(ServerlessError::InvalidTxToValue(to, contract))
            } else {
                match tx.input {
                    None => Err(ServerlessError::InvalidTxCalldataType),
                    Some(input) => match code_of_calldata(encode_utf8(input@)) {
                        Ok(code) => Ok(code),
                        Err(e) => Err(ServerlessError::BadCalldata(e)),
                    },
                }
            },
        },
    }
}

/// Checks a looked-up transaction against the deployment contract and reads
/// its code.
pub fn check_transaction(tx: Option<Transaction>, contract: &String) -> (res: Result<
    Vec<u8>,
    ServerlessError,
>)
    ensures
        match checked_code(tx, *contract) {
            Ok(code) => res is Ok && res->Ok_0@ == code,
            Err(e) => res == Err::<Vec<u8>, ServerlessError>(e),
        },
{
    let tx = match tx {
        None => {
            return Err(ServerlessError::TxNotFound);
        },
        Some(tx) => tx,
    };
    let to = match tx.to {
        None => {
            return Err(ServerlessError::InvalidTxToType);
        },
        Some(to) => to,
    };
    if to != *contract {
        return Err(ServerlessError::InvalidTxToValue(to, contract.clone()));
    }
    let input = match tx.input {
        None => {
            return Err(ServerlessError::InvalidTxCalldataType);
        },
        Some(input) => input,
    };
    decode_call_data(input.as_str())
}

/// Where a job stands: what it has last asked for.
#[derive(Debug, Clone, Copy, PartialEq, Eq, Structural)]
pub enum CodeStage {
    /// Whether the code file exists.
    Probing,
    /// Setting the times of the code file that exists.
    Touching,
    /// The listing of the runtime directory.
    Listing,
    /// The removal of the oldest code file.
    Evicting,
    /// The creation of the temporary file, which fails where it exists.
    Creating,
    /// Another request's code file, after a pause.
    Waiting,
    /// The deployment transaction.
    Fetching,
    /// Writing the code and renaming the temporary file.
    Storing,
    /// Nothing: the job has finished.
    Done,
}

/// How the removal of a file ended.
#[derive(Debug)]
pub enum RemoveOutcome {
    Removed,
    /// There was no such file.
    NotFound,
    Failed(String),
}

/// How the creation of the temporary file ended.
#[derive(Debug)]
pub enum CreateOutcome {
    Created,
    /// The file exists: another request is writing the code.
    Exists(String),
    Failed(String),
}

/// How writing the code ended.
#[derive(Debug)]
pub enum StoreOutcome {
    Stored,
    WriteFailed(String),
    RenameFailed(String),
}

/// What happened to the work that a job asked for.
#[derive(Debug)]
pub enum CodeEvent {
    /// Whether the code file exists.
    Probed(bool),
    Touched(Result<(), String>),
    Listed(Result<Vec<DirEntry>, String>),
    Removed(RemoveOutcome),
    Created(CreateOutcome),
    /// The transaction, or `None` where the chain does not know it.
    Fetched(Result<Option<Transaction>, String>),
    Stored(StoreOutcome),
}

/// What a job asks for next.
#[derive(Debug)]
pub enum CodeStep {
    /// Tell whether the code file exists.
    ProbeCode,
    /// Set the access and modification times of the code file to now.
    TouchCode,
    /// List the runtime directory.
    ListCode,
    /// Remove the file of this name from the runtime directory.
    Evict(String),
    /// Create the temporary file, failing where it exists.
    CreateTemp,
    /// Wait for the time of one poll, then tell whether the code file exists.
    Pause,
    /// Fetch the deployment transaction from the chain.
    FetchTransaction,
    /// Write the job's code to the temporary file and rename it to the code
    /// file.
    Store,
    /// Nothing more: the code file is there, or the job failed before it
    /// had a temporary file of its own.
    Finish(Result<(), ServerlessError>),
    /// Remove the temporary file, which this job created: the job failed
    /// for this reason, and the file must not stand in the way of the next.
    Abandon(ServerlessError),
}

/// The making of one function's code file, from the first look to the rename.
#[derive(Debug)]
pub struct CodeJob {
    pub stage: CodeStage,
    pub tx_hash: String,
    pub workerd_runtime_path: String,
    pub rpc: String,
    pub contract: String,
    /// The looks taken so far at another request's code file.
    pub polls: u32,
    /// Why the temporary file could not be created, while waiting.
    pub collision: String,
    /// The code to store, once it is known.
    pub code: Vec<u8>,
}

/// The index of the code file to evict.
pub open spec fn oldest_index(entries: Seq<DirEntry>) -> int {
    choose|i: int| is_oldest_code_file(entries, i)
}

/// No two entries are the oldest code file.
pub proof fn oldest_code_file_is_unique(entries: Seq<DirEntry>, i: int, j: int)
    requires
        is_oldest_code_file(entries, i),
        is_oldest_code_file(entries, j),
    ensures
        i == j,
{
}

/// The job has created the temporary file and has not yet given it its final
/// name.
pub open spec fn owns_temp(stage: CodeStage) -> bool {
    stage == CodeStage::Fetching || stage == CodeStage::Storing
}

/// The event is none that a job at `stage` waits for.
pub open spec fn out_of_order(stage: CodeStage, event: CodeEvent) -> bool {
    match (stage, event) {
        (CodeStage::Probing, CodeEvent::Probed(_)) => false,
        (CodeStage::Touching, CodeEvent::Touched(_)) => false,
        (CodeStage::Listing, CodeEvent::Listed(_)) => false,
        (CodeStage::Evicting, CodeEvent::Removed(_)) => false,
        (CodeStage::Creating, CodeEvent::Created(_)) => false,
        (CodeStage::Waiting, CodeEvent::Probed(_)) => false,
        (CodeStage::Fetching, CodeEvent::Fetched(_)) => false,
        (CodeStage::Storing, CodeEvent::Stored(_)) => false,
        _ => true,
    }
}

/// What a job asks for when `event` comes in order.
pub open spec fn next_step(job: CodeJob, event: CodeEvent) -> CodeStep {
    match (job.stage, event) {
        (CodeStage::Probing, CodeEvent::Probed(exists)) => if exists {
            CodeStep::TouchCode
        } else {
            CodeStep::ListCode
        },
        (CodeStage::Touching, CodeEvent::Touched(Ok(_))) => CodeStep::Finish(Ok(())),
        (CodeStage::Touching, CodeEvent::Touched(Err(cause))) => CodeStep::Finish(
            Err(ServerlessError::UpdateModifiedTime(cause)),
        ),
        (CodeStage::Listing, CodeEvent::Listed(Err(cause))) => CodeStep::Finish(
            Err(ServerlessError::CodeFileCreate(cause)),
        ),
        (CodeStage::Listing, CodeEvent::Listed(Ok(entries))) => if code_file_count(entries@)
            >= MAX_CODE_FILES {
            CodeStep::Evict(entries@[oldest_index(entries@)].name)
        } else {
            CodeStep::CreateTemp
        },
        (CodeStage::Evicting, CodeEvent::Removed(RemoveOutcome::Failed(cause))) => CodeStep::Finish(
            Err(ServerlessError::CodeFileDelete(cause)),
        ),
        (CodeStage::Evicting, CodeEvent::Removed(_)) => CodeStep::CreateTemp,
        (CodeStage::Creating, CodeEvent::Created(CreateOutcome::Created)) =>
            CodeStep::FetchTransaction,
        (CodeStage::Creating, CodeEvent::Created(CreateOutcome::Exists(_))) => CodeStep::Pause,
        (CodeStage::Creating, CodeEvent::Created(CreateOutcome::Failed(cause))) => CodeStep::Finish(
            Err(ServerlessError::CodeFileCreate(cause)),
        ),
        (CodeStage::Waiting, CodeEvent::Probed(exists)) => if exists {
            CodeStep::Finish(Ok(()))
        } else if job.polls + 1 < MAX_POLLS {
            CodeStep::Pause
        } else {
            CodeStep::Finish(Err(ServerlessError::CodeFileCreate(job.collision)))
        },
        (CodeStage::Fetching, CodeEvent::Fetched(Err(cause))) => CodeStep::Abandon(
            ServerlessError::CalldataRetrieve(cause),
        ),
        (CodeStage::Fetching, CodeEvent::Fetched(Ok(tx))) => match checked_code(tx, job.contract) {
            Ok(_) => CodeStep::Store,
            Err(e) => CodeStep::Abandon(e),
        },
        (CodeStage::Storing, CodeEvent::Stored(StoreOutcome::Stored)) => CodeStep::Finish(Ok(())),
        (CodeStage::Storing, CodeEvent::Stored(StoreOutcome::WriteFailed(cause))) =>
            CodeStep::Abandon(ServerlessError::CodeFileCreate(cause)),
        (CodeStage::Storing, CodeEvent::Stored(StoreOutcome::RenameFailed(cause))) =>
            CodeStep::Abandon(ServerlessError::CodeFileCreate(cause)),
        _ => arbitrary(),
    }
}

/// The stage at which a step leaves the job.
pub open spec fn stage_after(step: CodeStep) -> CodeStage {
    match step {
        CodeStep::ProbeCode => CodeStage::Probing,
        CodeStep::TouchCode => CodeStage::Touching,
        CodeStep::ListCode => CodeStage::Listing,
        CodeStep::Evict(_) => CodeStage::Evicting,
        CodeStep::CreateTemp => CodeStage::Creating,
        CodeStep::Pause => CodeStage::Waiting,
        CodeStep::FetchTransaction => CodeStage::Fetching,
        CodeStep::Store => CodeStage::Storing,
        CodeStep::Finish(_) => CodeStage::Done,
        CodeStep::Abandon(_) => CodeStage::Done,
    }
}

/// The code that a job holds after `event`.
pub open spec fn code_after(job: CodeJob, event: CodeEvent) -> Seq<u8> {
    match (job.stage, event) {
        (CodeStage::Fetching, CodeEvent::Fetched(Ok(tx))) => match checked_code(tx, job.contract) {
            Ok(code) => code,
            Err(_) => job.code@,
        },
        _ => job.code@,
    }
}

/// The looks that a job has taken after `event`: one more for each answer
/// while it waits, and none when it starts to wait.
pub open spec fn polls_after(job: CodeJob, event: CodeEvent) -> u32 {
    match (job.stage, event) {
        (CodeStage::Waiting, CodeEvent::Probed(_)) => if job.polls < u32::MAX {
            (job.polls + 1) as u32
        } else {
            job.polls
        },
        (CodeStage::Creating, CodeEvent::Created(CreateOutcome::Exists(_))) => 0,
        _ => job.polls,
    }
}

/// The cause of the collision that a job remembers after `event`.
pub open spec fn collision_after(job: CodeJob, event: CodeEvent) -> String {
    match (job.stage, event) {
        (CodeStage::Creating, CodeEvent::Created(CreateOutcome::Exists(cause))) => cause,
        _ => job.collision,
    }
}

/// Starts the making of the code file of `tx_hash`: the job, and its first
/// request, which is to look whether the file is there.
pub fn create_code_file(tx_hash: &str, workerd_runtime_path: &str, rpc: &str, contract: &str) -> (res:
    (CodeJob, CodeStep))
    ensures
        res.0.stage == CodeStage::Probing,
        res.0.tx_hash@ == tx_hash@,
        res.0.workerd_runtime_path@ == workerd_runtime_path@,
        res.0.rpc@ == rpc@,
        res.0.contract@ == contract@,
        res.0.polls == 0,
        res.0.code@.len() == 0,
        res.1 == CodeStep::ProbeCode,
{
    let job = CodeJob {
        stage: CodeStage::Probing,
        tx_hash: tx_hash.to_owned(),
        workerd_runtime_path: workerd_runtime_path.to_owned(),
        rpc: rpc.to_owned(),
        contract: contract.to_owned(),
        polls: 0,
        collision: String::new(),
        code: Vec::new(),
    };
    (job, CodeStep::ProbeCode)
}

impl CodeJob {
    /// Takes what happened to the last request and says what to do next.
    ///
    /// An event in order is answered as `next_step` says. Of the job only the
    /// stage, the count of polls, the cause of a collision and the code
    /// change. An event out of order ends the job with a failure. A job that
    /// fails while the temporary file is its own asks for the file's removal.
    pub fn step(&mut self, event: CodeEvent) -> (step: CodeStep)
        ensures
            !out_of_order(old(self).stage, event) ==> step == next_step(*old(self), event),
            out_of_order(old(self).stage, event) && !owns_temp(old(self).stage) ==> {
                &&& step matches CodeStep::Finish(Err(ServerlessError::CodeFileCreate(cause)))
                &&& cause@ == "event out of order"@
            },
            out_of_order(old(self).stage, event) && owns_temp(old(self).stage) ==> {
                &&& step matches CodeStep::Abandon(ServerlessError::CodeFileCreate(cause))
                &&& cause@ == "event out of order"@
            },
            final(self).stage == stage_after(step),
            final(self).tx_hash == old(self).tx_hash,
            final(self).workerd_runtime_path == old(self).workerd_runtime_path,
            final(self).rpc == old(self).rpc,
            final(self).contract == old(self).contract,
            final(self).code@ == code_after(*old(self), event),
            final(self).polls == polls_after(*old(self), event),
            final(self).collision == collision_after(*old(self), event),
    {
        let owned = match self.stage {
            CodeStage::Fetching => true,
            CodeStage::Storing => true,
            _ => false,
        };
        let step = match (self.stage, event) {
            (CodeStage::Probing, CodeEvent::Probed(exists)) => {
                if exists {
                    CodeStep::TouchCode
                } else {
                    CodeStep::ListCode
                }
            },
            (CodeStage::Touching, CodeEvent::Touched(Ok(_))) => CodeStep::Finish(Ok(())),
            (CodeStage::Touching, CodeEvent::Touched(Err(cause))) => CodeStep::Finish(
                Err(ServerlessError::UpdateModifiedTime(cause)),
            ),
            (CodeStage::Listing, CodeEvent::Listed(Err(cause))) => CodeStep::Finish(
                Err(ServerlessError::CodeFileCreate(cause)),
            ),
            (CodeStage::Listing, CodeEvent::Listed(Ok(entries))) => {
                if get_number_of_code_files(&entries) >= MAX_CODE_FILES {
                    match delete_oldest_code_file(&entries) {
                        Some(i) => {
                            proof {
                                let j = oldest_index(entries@);
                                oldest_code_file_is_unique(entries@, i as int, j);
                            }
                            CodeStep::Evict(entries[i].name.clone())
                        },
                        None => CodeStep::CreateTemp,
                    }
                } else {
                    CodeStep::CreateTemp
                }
            },
            (CodeStage::Evicting, CodeEvent::Removed(RemoveOutcome::Failed(cause))) => {
                CodeStep::Finish(Err(ServerlessError::CodeFileDelete(cause)))
            },
            (CodeStage::Evicting, CodeEvent::Removed(_)) => CodeStep::CreateTemp,
            (CodeStage::Creating, CodeEvent::Created(CreateOutcome::Created)) => {
                CodeStep::FetchTransaction
            },
            (CodeStage::Creating, CodeEvent::Created(CreateOutcome::Exists(cause))) => {
                self.collision = cause;
                self.polls = 0;
                CodeStep::Pause
            },
            (CodeStage::Creating, CodeEvent::Created(CreateOutcome::Failed(cause))) => {
                CodeStep::Finish(Err(ServerlessError::CodeFileCreate(cause)))
            },
            (CodeStage::Waiting, CodeEvent::Probed(exists)) => {
                if self.polls < u32::MAX {
                    self.polls = self.polls + 1;
                }
                if exists {
                    CodeStep::Finish(Ok(()))
                } else if self.polls < MAX_POLLS {
                    CodeStep::Pause
                } else {
                    CodeStep::Finish(Err(ServerlessError::CodeFileCreate(self.collision.clone())))
                }
            },
            (CodeStage::Fetching, CodeEvent::Fetched(Err(cause))) => CodeStep::Abandon(
                ServerlessError::CalldataRetrieve(cause),
            ),
            (CodeStage::Fetching, CodeEvent::Fetched(Ok(tx))) => {
                match check_transaction(tx, &self.contract) {
                    Ok(code) => {
                        self.code = code;
                        CodeStep::Store
                    },
                    Err(e) => CodeStep::Abandon(e),
                }
            },
            (CodeStage::Storing, CodeEvent::Stored(StoreOutcome::Stored)) => CodeStep::Finish(
                Ok(()),
            ),
            (CodeStage::Storing, CodeEvent::Stored(StoreOutcome::WriteFailed(cause))) => {
                CodeStep::Abandon(ServerlessError::CodeFileCreate(cause))
            },
            (CodeStage::Storing, CodeEvent::Stored(StoreOutcome::RenameFailed(cause))) => {
                CodeStep::Abandon(ServerlessError::CodeFileCreate(cause))
            },
            _ => {
                let e = ServerlessError::CodeFileCreate("event out of order".to_owned());
                if owned {
                    CodeStep::Abandon(e)
                } else {
                    CodeStep::Finish(Err(e))
                }
            },
        };
        self.stage = match &step {
            CodeStep::ProbeCode => CodeStage::Probing,
            CodeStep::TouchCode => CodeStage::Touching,
            CodeStep::ListCode => CodeStage::Listing,
            CodeStep::Evict(_) => CodeStage::Evicting,
            CodeStep::CreateTemp => CodeStage::Creating,
            CodeStep::Pause => CodeStage::Waiting,
            CodeStep::FetchTransaction => CodeStage::Fetching,
            CodeStep::Store => CodeStage::Storing,
            CodeStep::Finish(_) => CodeStage::Done,
            CodeStep::Abandon(_) => CodeStage::Done,
        };
        step
    }
}

/// A file to write: where, and what.
#[derive(Debug)]
pub struct ConfigFile {
    pub path: String,
    pub contents: Vec<u8>,
}

/// The config that lets the sandbox serve the module `tx_hash` on `port`: one
/// service, the worker, behind one socket that speaks HTTP on every address.
pub open spec fn config_text(tx_hash: Seq<u8>, port: u16) -> Seq<u8> {
    "using Workerd = import \"/workerd/workerd.capnp\";\nconst oysterConfig :Workerd.Config = (\n  services = [ (name = \"main\", worker = .oysterWorker) ],\n  sockets = [ ( name = \"http\", address = \"*:".spec_bytes()
        + decimal_digits(port as nat)
        + "\", http = (), service = \"main\" ) ]\n);\nconst oysterWorker :Workerd.Worker = (\n  modules = [ (name = \"main\", esModule = embed \"".spec_bytes()
        + tx_hash
        + ".js\") ],\n  compatibilityDate = \"2023-03-07\",\n);".spec_bytes()
}

/// The config file of the request `slug` for the function `tx_hash`, whose
/// sandbox is to listen on `free_port`.
pub fn create_config_file(tx_hash: &str, slug: &str, workerd_runtime_path: &str, free_port: u16) -> (file:
    ConfigFile)
    ensures
        file.path@ == config_path_spec(workerd_runtime_path@, tx_hash@, slug@),
        file.contents@ == config_text(tx_hash.spec_bytes(), free_port),
{
    let mut contents = owned(
        "using Workerd = import \"/workerd/workerd.capnp\";\nconst oysterConfig :Workerd.Config = (\n  services = [ (name = \"main\", worker = .oysterWorker) ],\n  sockets = [ ( name = \"http\", address = \"*:",
    );
    let port = decimal_bytes(free_port as u64);
    append(&mut contents, port.as_slice());
    append(
        &mut contents,
        "\", http = (), service = \"main\" ) ]\n);\nconst oysterWorker :Workerd.Worker = (\n  modules = [ (name = \"main\", esModule = embed \"".as_bytes(),
    );
    append(&mut contents, tx_hash.as_bytes());
    append(&mut contents, ".js\") ],\n  compatibilityDate = \"2023-03-07\",\n);".as_bytes());
    ConfigFile { path: config_path(workerd_runtime_path, tx_hash, slug), contents }
}

/// The config file to remove when the request `slug` for the function
/// `tx_hash` is over.
pub fn cleanup_config_file(tx_hash: &str, slug: &str, workerd_runtime_path: &str) -> (path: String)
    ensures
        path@ == config_path_spec(workerd_runtime_path@, tx_hash@, slug@),
{
    config_path(workerd_runtime_path, tx_hash, slug)
}

impl CodeJob {
    /// Where the job's code file is kept.
    pub fn code_path(&self) -> (path: String)
        ensures
            path@ == crate::workerd::code_path_spec(self.workerd_runtime_path@, self.tx_hash@),
    {
        code_path(self.workerd_runtime_path.as_str(), self.tx_hash.as_str())
    }

    /// Where the job writes the code before it is complete.
    pub fn temp_path(&self) -> (path: String)
        ensures
            path@ == crate::workerd::temp_path_spec(self.workerd_runtime_path@, self.tx_hash@),
    {
        temp_path(self.workerd_runtime_path.as_str(), self.tx_hash.as_str())
    }

    /// Where the file `name` of the runtime directory is found.
    pub fn entry_path(&self, name: &str) -> (path: String)
        ensures
            path@ == self.workerd_runtime_path@ + "/"@ + name@,
    {
        let mut path = self.workerd_runtime_path.clone();
        path.append("/");
        path.append(name);
        path
    }
}

/// Of the requests that find no code file, only the one that created the
/// temporary file goes on to fetch and to store: a job asks for the
/// transaction only in answer to its own successful creation, and asks to
/// store only in answer to the transaction it fetched.
pub proof fn only_the_creator_stores(job: CodeJob, event: CodeEvent)
    requires
        !out_of_order(job.stage, event),
    ensures
        next_step(job, event) == CodeStep::FetchTransaction ==> job.stage == CodeStage::Creating
            && event == CodeEvent::Created(CreateOutcome::Created),
        next_step(job, event) == CodeStep::Store ==> job.stage == CodeStage::Fetching,
        (job.stage == CodeStage::Creating && event is Created && event->Created_0 is Exists)
            ==> next_step(job, event) == CodeStep::Pause,
        job.stage == CodeStage::Waiting ==> next_step(job, event) != CodeStep::Store && next_step(
            job,
            event,
        ) != CodeStep::FetchTransaction,
{
}

/// The listing without entry `i` has one code file less where that entry is
/// a code file.
pub proof fn count_without(entries: Seq<DirEntry>, i: int)
    requires
        0 <= i < entries.len(),
    ensures
        code_file_count(entries.remove(i)) + (if is_code_file(entries[i]) {
            1nat
        } else {
            0nat
        }) == code_file_count(entries),
    decreases entries.len(),
{
    reveal(Seq::filter);
    let pred = |e: DirEntry| is_code_file(e);
    if i == entries.len() - 1 {
        assert(entries.remove(i) =~= entries.drop_last());
    } else {
        count_without(entries.drop_last(), i);
        assert(entries.remove(i).drop_last() =~= entries.drop_last().remove(i));
        assert(entries.remove(i).last() == entries.last());
        assert(entries.drop_last()[i] == entries[i]);
    }
}

/// The listing of the runtime directory after a code file was made: the
/// oldest code file has left where the bound was reached, and the new file
/// has come.
pub open spec fn listing_after_create(entries: Seq<DirEntry>, fresh: DirEntry) -> Seq<DirEntry> {
    if code_file_count(entries) >= MAX_CODE_FILES {
        entries.remove(oldest_index(entries)).push(fresh)
    } else {
        entries.push(fresh)
    }
}

/// A directory that holds no more code files than the bound allows holds no
/// more after a code file was made.
pub proof fn cache_stays_within_bound(entries: Seq<DirEntry>, fresh: DirEntry)
    requires
        code_file_count(entries) <= MAX_CODE_FILES,
    ensures
        code_file_count(listing_after_create(entries, fresh)) <= MAX_CODE_FILES,
{
    reveal(Seq::filter);
    let pred = |e: DirEntry| is_code_file(e);
    if code_file_count(entries) >= MAX_CODE_FILES {
        code_file_count_facts(entries);
        let w = choose|w: int| 0 <= w < entries.len() && is_code_file(#[trigger] entries[w]);
        oldest_exists(entries, entries.len() as int);
        let i = oldest_index(entries);
        assert(is_oldest_code_file(entries, i));
        count_without(entries, i);
        let shorter = entries.remove(i);
        assert(shorter.push(fresh).drop_last() =~= shorter);
    } else {
        assert(entries.push(fresh).drop_last() =~= entries);
    }
}

/// Among the first `n` entries, where one is a code file, one is the oldest
/// code file.
pub proof fn oldest_exists(entries: Seq<DirEntry>, n: int)
    requires
        0 <= n <= entries.len(),
        exists|w: int| 0 <= w < n && is_code_file(#[trigger] entries[w]),
    ensures
        exists|i: int| is_oldest_code_file(entries.subrange(0, n), i),
        n == entries.len() ==> exists|i: int| is_oldest_code_file(entries, i),
    decreases n,
{
    let head = entries.subrange(0, n);
    let shorter = entries.subrange(0, n - 1);
    let earlier = exists|w: int| 0 <= w < n - 1 && is_code_file(#[trigger] entries[w]);
    if earlier {
        oldest_exists(entries, n - 1);
        let b = choose|b: int| is_oldest_code_file(shorter, b);
        assert(shorter[b] == head[b]);
        if is_code_file(entries[n - 1]) && entries[n - 1].modified < shorter[b].modified {
            assert forall|j: int| 0 <= j < head.len() && is_code_file(#[trigger] head[j]) implies {
                ||| head[n - 1].modified < head[j].modified
                ||| head[n - 1].modified == head[j].modified && n - 1 <= j
            } by {
                if j < n - 1 {
                    assert(shorter[j] == head[j]);
                    assert(is_code_file(shorter[j]));
                }
            }
            assert(is_oldest_code_file(head, n - 1));
        } else {
            assert forall|j: int| 0 <= j < head.len() && is_code_file(#[trigger] head[j]) implies {
                ||| head[b].modified < head[j].modified
                ||| head[b].modified == head[j].modified && b <= j
            } by {
                if j < n - 1 {
                    assert(shorter[j] == head[j]);
                    assert(is_code_file(shorter[j]));
                }
            }
            assert(is_oldest_code_file(head, b));
        }
    } else {
        let w = choose|w: int| 0 <= w < n && is_code_file(#[trigger] entries[w]);
        assert(w == n - 1);
        assert forall|j: int| 0 <= j < head.len() && is_code_file(#[trigger] head[j]) implies {
            ||| head[n - 1].modified < head[j].modified
            ||| head[n - 1].modified == head[j].modified && n - 1 <= j
        } by {
            if j < n - 1 {
                assert(entries[j] == head[j]);
            }
        }
        assert(is_oldest_code_file(head, n - 1));
    }
    if n == entries.len() {
        assert(head =~= entries);
    }
}

/// The request that asks the chain for the transaction `id`: a JSON-RPC call
/// of `eth_getTransactionByHash` with the hexadecimal name as its one
/// parameter.
pub open spec fn transaction_request(id: Seq<u8>) -> Seq<u8> {
    "{\"id\":1,\"jsonrpc\":\"2.0\",\"method\":\"eth_getTransactionByHash\",\"params\":[\"".spec_bytes()
        + encode_utf8(id_hex(id)) + "\"]}".spec_bytes()
}

/// Writes the request that asks the chain for the transaction `id`. The
/// answer's `result` is the transaction.
pub fn get_transaction_data(id: &FunctionId) -> (body: Vec<u8>)
    ensures
        body@ == transaction_request(id@),
{
    let mut body = owned(
        "{\"id\":1,\"jsonrpc\":\"2.0\",\"method\":\"eth_getTransactionByHash\",\"params\":[\"",
    );
    let name = id.to_hex();
    append(&mut body, name.as_str().as_bytes());
    append(&mut body, "\"]}".as_bytes());
    body
}

/// What creating the temporary file gives, by whether it exists: the file
/// system creates it for the first who asks and refuses everyone after.
pub open spec fn create_new(exists: bool, cause: String) -> CodeEvent {
    if exists {
        CodeEvent::Created(CreateOutcome::Exists(cause))
    } else {
        CodeEvent::Created(CreateOutcome::Created)
    }
}

/// Of two requests that try to create the temporary file of one function, one
/// after the other, the second is refused and waits: at most one of them goes
/// on to fetch the code and to write it.
pub proof fn one_creator_among_two(
    first: CodeJob,
    second: CodeJob,
    exists: bool,
    first_cause: String,
    second_cause: String,
)
    requires
        first.stage == CodeStage::Creating,
        second.stage == CodeStage::Creating,
    ensures
        next_step(second, create_new(true, second_cause)) == CodeStep::Pause,
        !(next_step(first, create_new(exists, first_cause)) == CodeStep::FetchTransaction
            && next_step(second, create_new(true, second_cause)) == CodeStep::FetchTransaction),
{
}

/// The temporary file is transient. A job comes to own it by creating it,
/// and to nothing else; while the job goes on, the file stays its own; and
/// when the job ends, either the file has got its final name or the job asks
/// for its removal. A job that never owned the file asks for no removal.
pub proof fn temporary_file_is_transient(job: CodeJob, event: CodeEvent)
    requires
        !out_of_order(job.stage, event),
    ensures
        owns_temp(stage_after(next_step(job, event))) && !owns_temp(job.stage) ==> job.stage
            == CodeStage::Creating && event == CodeEvent::Created(CreateOutcome::Created),
        owns_temp(job.stage) ==> {
            ||| owns_temp(stage_after(next_step(job, event)))
            ||| next_step(job, event) is Abandon
            ||| job.stage == CodeStage::Storing && event == CodeEvent::Stored(StoreOutcome::Stored)
                && next_step(job, event) == CodeStep::Finish(Ok(()))
        },
        next_step(job, event) is Abandon ==> owns_temp(job.stage),
{
}

} // verus!
