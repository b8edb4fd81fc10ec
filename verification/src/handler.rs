//! The dispatcher: what a request goes through from its host name to its
//! signed answer, one decision at a time.

use crate::billing_handler::{recorded, BillingLedger};
use crate::bytes::{append, contains, equal, first_index, index_of, occurs_in};
use crate::cgroups::{Cgroups, CgroupsError, PoolView};
use crate::encoding::{decimal_bytes, decimal_digits, hex_encode, hex_lower, DecodeError, DecodeKind};
use crate::error::{lines, owned, report, report_error, report_spec, ServerlessError};
use crate::file_manager::{config_text, create_config_file, ConfigFile};
use crate::model::{id_hex, label_decoded, AppState, FunctionId};
use crate::signing::{be_bytes, to_be_bytes};
use crate::workerd::{
    config_path_spec, execute, get_port, get_workerd_response, port_of, signed_reply,
    upstream_url, upstream_url_spec, Reply, ReplyView, Request,
};
use vstd::multiset::Multiset;
use vstd::prelude::*;
use vstd::slice::slice_subrange;
use vstd::string::StringSliceAdditionalSpecFns;
use vstd::utf8::encode_utf8;

verus! {

/// Why a request goes to no function.
#[derive(Debug, Clone, Copy, PartialEq, Eq, Structural)]
pub enum Refusal {
    /// The node is draining and serves no more.
    Gone,
    /// The request names no host.
    NoHost,
    /// The host name holds a byte that is no visible character.
    BadHost,
    /// The request asks the node to drain.
    Unregister,
    /// The first label spells no identifier.
    BadLabel(DecodeError),
}

/// A byte that may stand in a host name: a printable character, a space or
/// a tab.
pub open spec fn is_visible(b: u8) -> bool {
    32 <= b < 127 || b == 9
}

/// Every byte of the host name is visible.
pub open spec fn all_visible(host: Seq<u8>) -> bool {
    forall|i: int| 0 <= i < host.len() ==> is_visible(#[trigger] host[i])
}

/// The first label of a host name: what stands before its first dot.
pub open spec fn host_label(host: Seq<u8>) -> Seq<u8> {
    host.subrange(0, first_index(host, 46))
}

/// Where a request goes: to the function that the first label of its host
/// name spells. A draining node serves nothing; then the host name must be
/// there and readable; and the label `unregister` asks the node to drain.
pub open spec fn route_of(running: bool, host: Option<Seq<u8>>) -> Result<Seq<u8>, Refusal> {
    if !running {
        Err(Refusal::Gone)
    } else {
        match host {
            None => Err(Refusal::NoHost),
            Some(host) => if !all_visible(host) {
                Err(Refusal::BadHost)
            } else if host_label(host) == "unregister".spec_bytes() {
                Err(Refusal::Unregister)
            } else {
                match label_decoded(host_label(host)) {
                    Ok(id) => Ok(id),
                    Err(e) => Err(Refusal::BadLabel(e)),
                }
            },
        }
    }
}

/// Tells whether every byte of the host name is visible.
pub fn host_is_visible(host: &[u8]) -> (res: bool)
    ensures
        res == all_visible(host@),
{
    let mut i: usize = 0;
    while i < host.len()
        invariant
            i <= host.len(),
            forall|j: int| 0 <= j < i ==> is_visible(#[trigger] host@[j]),
        decreases host.len() - i,
    {
        let b = host[i];
        if !((32 <= b && b < 127) || b == 9) {
            assert(!is_visible(host@[i as int]));
            return false;
        }
        i += 1;
    }
    true
}

/// Finds where a request goes.
pub fn route(running: bool, host: Option<&[u8]>) -> (res: Result<FunctionId, Refusal>)
    ensures
        match route_of(running, host_view(host)) {
            Ok(id) => res is Ok && res->Ok_0@ == id,
            Err(refusal) => res == Err::<FunctionId, Refusal>(refusal),
        },
{
    if !running {
        return Err(Refusal::Gone);
    }
    let host = match host {
        None => {
            return Err(Refusal::NoHost);
        },
        Some(host) => host,
    };
    if !host_is_visible(host) {
        return Err(Refusal::BadHost);
    }
    let dot = index_of(host, 46);
    proof {
        crate::bytes::first_index_is_first(host@, 46);
    }
    let label = slice_subrange(host, 0, dot);
    if equal(label, "unregister".as_bytes()) {
        return Err(Refusal::Unregister);
    }
    match FunctionId::from_label(label) {
        Ok(id) => Ok(id),
        Err(e) => Err(Refusal::BadLabel(e)),
    }
}

/// The name of a kind of fault in a Base32 text.
pub open spec fn kind_name(kind: DecodeKind) -> Seq<u8> {
    match kind {
        DecodeKind::Length => "Length".spec_bytes(),
        DecodeKind::Symbol => "Symbol".spec_bytes(),
        DecodeKind::Trailing => "Trailing".spec_bytes(),
        DecodeKind::Padding => "Padding".spec_bytes(),
    }
}

/// How a fault in a Base32 text is written out.
pub open spec fn decode_error_text(e: DecodeError) -> Seq<u8> {
    "DecodeError { position: ".spec_bytes() + decimal_digits(e.position as nat)
        + ", kind: ".spec_bytes() + kind_name(e.kind) + " }".spec_bytes()
}

/// Writes out a fault in a Base32 text.
pub fn describe_decode_error(e: &DecodeError) -> (out: Vec<u8>)
    ensures
        out@ == decode_error_text(*e),
{
    let mut out = owned("DecodeError { position: ");
    let digits = decimal_bytes(e.position as u64);
    append(&mut out, digits.as_slice());
    append(&mut out, ", kind: ".as_bytes());
    match e.kind {
        DecodeKind::Length => append(&mut out, "Length".as_bytes()),
        DecodeKind::Symbol => append(&mut out, "Symbol".as_bytes()),
        DecodeKind::Trailing => append(&mut out, "Trailing".as_bytes()),
        DecodeKind::Padding => append(&mut out, "Padding".as_bytes()),
    }
    append(&mut out, " }".as_bytes());
    out
}

/// A message without headers.
pub open spec fn plain(status: u16, body: Seq<u8>) -> ReplyView {
    ReplyView { status, headers: Seq::empty(), body }
}

/// Makes a message without headers.
pub fn plain_reply(status: u16, body: Vec<u8>) -> (reply: Reply)
    ensures
        reply@ == plain(status, body@),
{
    let reply = Reply { status, headers: Vec::new(), body };
    assert(reply@.headers =~= Seq::<(Seq<u8>, Seq<u8>)>::empty());
    reply
}

/// What a request is answered with when it goes to no function.
pub open spec fn refusal(why: Refusal) -> ReplyView {
    match why {
        Refusal::Gone => plain(410, "worker unregistered".spec_bytes()),
        Refusal::NoHost => plain(400, "could not find Host header".spec_bytes()),
        Refusal::BadHost => plain(
            400,
            report_spec(
                "could not parse Host header".spec_bytes(),
                seq!["failed to convert header to a str".spec_bytes()],
            ),
        ),
        Refusal::Unregister => plain(200, "successfully set server in draining state".spec_bytes()),
        Refusal::BadLabel(e) => plain(
            400,
            "invalid tx hash encoding: ".spec_bytes() + decode_error_text(e),
        ),
    }
}

/// The token of a request as the eight hexadecimal digits of its slug.
pub open spec fn slug_text(token: u32) -> Seq<char> {
    hex_lower(be_bytes(token as nat, 4))
}

/// Writes the slug of a request from its token.
pub fn slug_of(token: u32) -> (slug: String)
    ensures
        slug@ == slug_text(token),
{
    let bytes = to_be_bytes(token as u128, 4);
    hex_encode(bytes.as_slice())
}

/// Asks `rand::random` for 32 bits. Nothing is known of them.
#[verifier::external_body]
pub(crate) fn random_token() -> u32 {
    rand::random::<u32>()
}

/// A slug for a new request, from a random token.
pub fn new_slug() -> (slug: String)
    ensures
        exists|token: u32| slug@ == slug_text(token),
{
    let token = random_token();
    let slug = slug_of(token);
    assert(slug@ == slug_text(token));
    slug
}

/// Where a request stands: what it has last asked for.
#[derive(Debug, Clone, Copy, PartialEq, Eq, Structural)]
pub enum Stage {
    /// The code file.
    Ensuring,
    /// The writing of the config file.
    Configuring,
    /// The start of the sandbox.
    Launching,
    /// The sandbox to open its port.
    Readying,
    /// The sandbox's answer.
    Proxying,
    /// The end of the sandbox and of the config file.
    Stopping,
    /// Nothing: the request is over.
    Done,
}

/// One request on its way through the node.
#[derive(Debug)]
pub struct Session {
    pub stage: Stage,
    /// The function asked for, while the request is under way.
    pub id: Option<FunctionId>,
    /// The hexadecimal name of the function.
    pub tx_hash: String,
    /// The token that tells this request's files from those of others.
    pub slug: String,
    /// The host name as the client sent it.
    pub host: Vec<u8>,
    pub request: Request,
    /// The slot that the request holds.
    pub cgroup: Option<String>,
    /// The port of that slot.
    pub port: u16,
    /// The config file that the request has asked to be written.
    pub config: Option<String>,
    /// The answer that waits for the cleanup to be over.
    pub pending: Option<Pending>,
}

/// An answer that waits for the cleanup to be over.
#[derive(Debug)]
pub struct Pending {
    pub reply: Reply,
    /// Whether the cleanup is to kill the sandbox.
    pub kill_worker: bool,
}

/// The cleanup that comes before a request gives its slot back.
#[derive(Debug)]
pub struct Teardown {
    /// Kill the sandbox.
    pub kill_worker: bool,
    /// Remove this config file.
    pub remove_config: Option<String>,
}

/// The end of a request: what to answer.
#[derive(Debug)]
pub struct Finish {
    /// Stop taking new requests.
    pub drain: bool,
    pub reply: Reply,
}

/// What a request asks for next.
#[derive(Debug)]
pub enum Action {
    /// See that the code file of the session's function is there.
    EnsureCode,
    /// Write this config file.
    WriteConfig(ConfigFile),
    /// Start the sandbox with this command, the program first, and keep what
    /// it writes to its error stream.
    Launch(Vec<String>),
    /// Try to reach this port on the local host until it opens or the time
    /// for it is over.
    AwaitReady(u16),
    /// Note the time, send the client's request to this address without
    /// following redirects, and take the answer or give up when the time for
    /// it is over.
    Proxy(String),
    /// Kill the sandbox and remove the config file, as far as the action
    /// names them, and say when that is done. Until then the request keeps
    /// its slot.
    Teardown(Teardown),
    /// Answer: the request is over and holds nothing any more.
    Finish(Finish),
}

/// An action as mathematical values.
pub enum ActionView {
    EnsureCode,
    WriteConfig { path: Seq<char>, contents: Seq<u8> },
    Launch(Seq<Seq<char>>),
    AwaitReady(u16),
    Proxy(Seq<char>),
    Teardown { kill_worker: bool, remove_config: Option<Seq<char>> },
    Finish { drain: bool, reply: ReplyView },
}

/// A text that may be absent, as a mathematical value.
pub open spec fn text_view(text: Option<String>) -> Option<Seq<char>> {
    match text {
        Some(t) => Some(t@),
        None => None,
    }
}

impl View for Action {
    type V = ActionView;

    open spec fn view(&self) -> ActionView {
        match self {
            Action::EnsureCode => ActionView::EnsureCode,
            Action::WriteConfig(file) => ActionView::WriteConfig {
                path: file.path@,
                contents: file.contents@,
            },
            Action::Launch(command) => ActionView::Launch(crate::cgroups::names(command@)),
            Action::AwaitReady(port) => ActionView::AwaitReady(*port),
            Action::Proxy(url) => ActionView::Proxy(url@),
            Action::Teardown(cleanup) => ActionView::Teardown {
                kill_worker: cleanup.kill_worker,
                remove_config: text_view(cleanup.remove_config),
            },
            Action::Finish(end) => ActionView::Finish { drain: end.drain, reply: end.reply@ },
        }
    }
}

/// How the exchange with the sandbox ended.
#[derive(Debug)]
pub enum ProxyOutcome {
    /// The time for the answer was over.
    TimedOut,
    /// The exchange failed; holds the cause.
    Failed(String),
    /// The sandbox answered. `timestamp` is the time in seconds at which the
    /// request was sent on, `millis` the time that serving it took.
    Answered { reply: Reply, timestamp: u64, millis: u64 },
}

/// What happened to the work that a request asked for.
#[derive(Debug)]
pub enum Event {
    Code(Result<(), ServerlessError>),
    ConfigWritten(Result<(), String>),
    Launched(Result<(), String>),
    /// Whether the port opened in time, and what the sandbox wrote to its
    /// error stream if it did not.
    Ready { ready: bool, stderr: Vec<u8> },
    Proxied(ProxyOutcome),
    /// The cleanup is over: the sandbox is dead, whatever became of the
    /// config file.
    TornDown,
}

/// The stage at which an action leaves the request.
pub open spec fn stage_after(action: ActionView) -> Stage {
    match action {
        ActionView::EnsureCode => Stage::Ensuring,
        ActionView::WriteConfig { .. } => Stage::Configuring,
        ActionView::Launch(_) => Stage::Launching,
        ActionView::AwaitReady(_) => Stage::Readying,
        ActionView::Proxy(_) => Stage::Proxying,
        ActionView::Teardown { .. } => Stage::Stopping,
        ActionView::Finish { .. } => Stage::Done,
    }
}

/// The sandbox of a request may run from its start until the cleanup is
/// reported to be over.
pub open spec fn sandbox_runs(stage: Stage) -> bool {
    stage == Stage::Readying || stage == Stage::Proxying || stage == Stage::Stopping
}

/// The request has a config file that it has not yet asked to be removed.
pub open spec fn has_config(stage: Stage) -> bool {
    stage == Stage::Configuring || stage == Stage::Launching || stage == Stage::Readying || stage
        == Stage::Proxying
}

/// The request holds a slot: from the moment it takes one until its cleanup
/// is reported to be over.
pub open spec fn holds_slot(stage: Stage) -> bool {
    has_config(stage) || stage == Stage::Stopping
}

/// An answer that may wait, as mathematical values.
pub open spec fn pending_view(pending: Option<Pending>) -> Option<(ReplyView, bool)> {
    match pending {
        Some(p) => Some((p.reply@, p.kill_worker)),
        None => None,
    }
}

impl Session {
    /// A request under way knows its function; it holds a slot from the
    /// moment it takes one until its cleanup is over, a config file from the
    /// moment it asks for one until it asks for its removal, and an answer
    /// that waits exactly while the cleanup goes on.
    pub open spec fn wf(&self) -> bool {
        &&& self.stage != Stage::Done ==> self.id is Some && self.tx_hash@ == id_hex(
            self.id->Some_0@,
        )
        &&& holds_slot(self.stage) <==> self.cgroup is Some
        &&& has_config(self.stage) <==> self.config is Some
        &&& self.stage == Stage::Stopping <==> self.pending is Some
    }
}

/// What a step decides for a request that is not being cleaned up: to go on
/// with an action, or to end with an answer.
pub enum Verdict {
    Go(ActionView),
    End(ReplyView),
}

/// How a request ends with `reply`. One that holds a slot is cleaned up
/// first: its sandbox is killed where one was started, and its config file
/// is removed; the slot stays its own and the answer waits. One that holds
/// nothing is answered at once.
pub open spec fn closing(session: Session, reply: ReplyView) -> ActionView {
    if session.cgroup is Some {
        ActionView::Teardown {
            kill_worker: session.stage == Stage::Readying || session.stage == Stage::Proxying,
            remove_config: text_view(session.config),
        }
    } else {
        ActionView::Finish { drain: false, reply }
    }
}

/// What a request is answered with when its code file could not be made:
/// the fault lies with the request where the chain does not know the
/// transaction or the transaction is no deployment to this node's contract,
/// and with the node otherwise.
pub open spec fn code_failure(e: ServerlessError) -> ReplyView {
    match e {
        ServerlessError::TxNotFound
        | ServerlessError::InvalidTxToType
        | ServerlessError::InvalidTxToValue(_, _)
        | ServerlessError::InvalidTxCalldataType
        | ServerlessError::BadCalldata(_) => plain(
            400,
            report_spec("failed to create code file".spec_bytes(), e.chain_spec()),
        ),
        ServerlessError::CalldataRetrieve(_)
        | ServerlessError::CodeFileCreate(_)
        | ServerlessError::CodeFileCount(_)
        | ServerlessError::UpdateModifiedTime(_) => plain(
            500,
            report_spec("failed to create code file".spec_bytes(), e.chain_spec()),
        ),
        _ => plain(
            500,
            report_spec(
                "unexpected error while trying to create code file".spec_bytes(),
                e.chain_spec(),
            ),
        ),
    }
}

/// What a request is answered with when its sandbox did not open its port:
/// a syntax error in the code is the request's fault.
pub open spec fn not_ready(stderr: Seq<u8>) -> ReplyView {
    if occurs_in(stderr, "SyntaxError".spec_bytes()) {
        plain(400, "syntax error in the code: ".spec_bytes() + stderr)
    } else {
        plain(500, "failed to execute worker: ".spec_bytes() + stderr)
    }
}

/// The command that starts the sandbox of a request.
pub open spec fn launch_command(session: Session, state: AppState) -> Seq<Seq<char>> {
    seq![
        "cgexec"@,
        "-g"@,
        "memory,cpu:"@ + session.cgroup->Some_0@,
        state.runtime_path@ + "/workerd"@,
        "serve"@,
        config_path_spec(state.runtime_path@, session.tx_hash@, session.slug@),
        "--verbose"@,
    ]
}

/// What a step decides when `event` comes in for a request that is not being
/// cleaned up.
pub open spec fn verdict(session: Session, state: AppState, pool: PoolView, event: Event) -> Verdict {
    match (session.stage, event) {
        (Stage::Ensuring, Event::Code(Err(e))) => Verdict::End(code_failure(e)),
        (Stage::Ensuring, Event::Code(Ok(_))) => if pool.free.len() == 0 {
            Verdict::End(plain(429, "no free cgroup available to run request".spec_bytes()))
        } else {
            match port_of(encode_utf8(pool.free[0])) {
                Err(e) => Verdict::End(plain(
                        500,
                        report_spec(
                            "failed to get port for cgroup".spec_bytes(),
                            ServerlessError::BadPort(e).chain_spec(),
                        ),
                    ),
                ),
                Ok(port) => Verdict::Go(
                    ActionView::WriteConfig {
                        path: config_path_spec(
                            state.runtime_path@,
                            session.tx_hash@,
                            session.slug@,
                        ),
                        contents: config_text(encode_utf8(session.tx_hash@), port),
                    },
                ),
            }
        },
        (Stage::Configuring, Event::ConfigWritten(Err(cause))) => Verdict::End(plain(
                500,
                report_spec(
                    "unexpected error while trying to create code file".spec_bytes(),
                    ServerlessError::ConfigFileCreate(cause).chain_spec(),
                ),
            ),
        ),
        (Stage::Configuring, Event::ConfigWritten(Ok(_))) => Verdict::Go(
            ActionView::Launch(launch_command(session, state)),
        ),
        (Stage::Launching, Event::Launched(Err(cause))) => Verdict::End(plain(
                400,
                report_spec(
                    "failed to execute worker".spec_bytes(),
                    ServerlessError::Execute(CgroupsError::Execute(cause)).chain_spec(),
                ),
            ),
        ),
        (Stage::Launching, Event::Launched(Ok(_))) => Verdict::Go(
            ActionView::AwaitReady(session.port),
        ),
        (Stage::Readying, Event::Ready { ready, stderr }) => if ready {
            Verdict::Go(
                ActionView::Proxy(upstream_url_spec(session.port, session.request.path_and_query@)),
            )
        } else {
            Verdict::End(not_ready(stderr@))
        },
        (Stage::Proxying, Event::Proxied(ProxyOutcome::TimedOut)) => Verdict::End(plain(
                408,
                report_spec(
                    "worker timed out".spec_bytes(),
                    seq!["deadline has elapsed".spec_bytes()],
                ),
            ),
        ),
        (Stage::Proxying, Event::Proxied(ProxyOutcome::Failed(cause))) => Verdict::End(plain(
                500,
                report_spec("failed to get a response".spec_bytes(), seq![encode_utf8(cause@)]),
            ),
        ),
        (Stage::Proxying, Event::Proxied(ProxyOutcome::Answered { reply, timestamp, millis })) =>
            match signed_reply(
            reply.status,
            reply@.headers,
            reply.body@,
            timestamp,
            encode_utf8(session.request.method@),
            encode_utf8(session.request.path_and_query@),
            session.host@,
            session.request.body@,
            state.signer@,
        ) {
            Some((status, headers, body)) => Verdict::End(ReplyView { status, headers, body }),
            None => Verdict::End(plain(
                    500,
                    report_spec(
                        "failed to get a response".spec_bytes(),
                        seq!["signature error".spec_bytes()],
                    ),
                ),
            ),
        },
        _ => Verdict::End(plain(500, "event out of order".spec_bytes())),
    }
}

/// What a request asks for when `event` comes in. A request that is being
/// cleaned up waits for the report that the cleanup is over, and answers
/// then; to anything else it says again that the sandbox is to be killed.
pub open spec fn next_action(session: Session, state: AppState, pool: PoolView, event: Event) -> ActionView {
    if session.stage == Stage::Stopping {
        if event is TornDown {
            ActionView::Finish { drain: false, reply: session.pending->Some_0.reply@ }
        } else {
            ActionView::Teardown {
                kill_worker: session.pending->Some_0.kill_worker,
                remove_config: None,
            }
        }
    } else {
        match verdict(session, state, pool, event) {
            Verdict::Go(action) => action,
            Verdict::End(reply) => closing(session, reply),
        }
    }
}

/// The answer that waits after `event`: the one that a request with a slot
/// ends with, until the cleanup is over.
pub open spec fn pending_after(session: Session, state: AppState, pool: PoolView, event: Event) -> Option<
    (ReplyView, bool),
> {
    if session.stage == Stage::Stopping {
        if event is TornDown {
            None
        } else {
            pending_view(session.pending)
        }
    } else {
        match verdict(session, state, pool, event) {
            Verdict::Go(_) => None,
            Verdict::End(reply) => if session.cgroup is Some {
                Some((reply, session.stage == Stage::Readying || session.stage == Stage::Proxying))
            } else {
                None
            },
        }
    }
}

/// The pool after `event`: a request takes a slot when its code file is
/// there, gives it back at once where the slot's name gives no port, and
/// else gives it back when its cleanup is reported to be over, not before.
pub open spec fn pool_after(session: Session, state: AppState, pool: PoolView, event: Event) -> PoolView {
    match (session.stage, event) {
        (Stage::Ensuring, Event::Code(Ok(_))) => if pool.free.len() == 0 {
            pool
        } else if port_of(encode_utf8(pool.free[0])) is Err {
            pool.reserve().release(pool.free[0])
        } else {
            pool.reserve()
        },
        (Stage::Stopping, Event::TornDown) => if session.cgroup is Some {
            pool.release(session.cgroup->Some_0@)
        } else {
            pool
        },
        _ => pool,
    }
}

/// The slot that a request holds after `event`: the first free slot once its
/// config file is asked for, none once the request is over, and the same
/// while it is cleaned up.
pub open spec fn cgroup_after(session: Session, state: AppState, pool: PoolView, event: Event) -> Option<
    Seq<char>,
> {
    match next_action(session, state, pool, event) {
        ActionView::WriteConfig { .. } => Some(pool.free[0]),
        ActionView::Finish { .. } => None,
        _ => text_view(session.cgroup),
    }
}

/// The config file that a request has after `event`: the one it asks for
/// now, and none once it has asked for the removal.
pub open spec fn config_after(session: Session, state: AppState, pool: PoolView, event: Event) -> Option<
    Seq<char>,
> {
    match next_action(session, state, pool, event) {
        ActionView::WriteConfig { path, .. } => Some(path),
        ActionView::Teardown { .. } => None,
        ActionView::Finish { .. } => None,
        _ => text_view(session.config),
    }
}

/// The ledger after `event`: a request that is answered with a signed answer
/// adds the time it took to the total of its function.
pub open spec fn ledger_after(
    session: Session,
    state: AppState,
    ledger: Map<Seq<u8>, u128>,
    event: Event,
) -> Map<Seq<u8>, u128> {
    match (session.stage, event) {
        (Stage::Proxying, Event::Proxied(ProxyOutcome::Answered { reply, timestamp, millis })) =>
            if signed_reply(
            reply.status,
            reply@.headers,
            reply.body@,
            timestamp,
            encode_utf8(session.request.method@),
            encode_utf8(session.request.path_and_query@),
            session.host@,
            session.request.body@,
            state.signer@,
        ) is Some {
            recorded(ledger, session.id->Some_0@, millis as u128)
        } else {
            ledger
        },
        _ => ledger,
    }
}

/// What a request asks for first: the code file where it is for a
/// function; else its end, which takes the node out of service where the
/// request asked for that.
pub open spec fn first_action(route: Result<Seq<u8>, Refusal>) -> ActionView {
    match route {
        Ok(_) => ActionView::EnsureCode,
        Err(why) => ActionView::Finish { drain: why == Refusal::Unregister, reply: refusal(why) },
    }
}

/// A host name that may be absent, as a mathematical value.
pub open spec fn host_view(host: Option<&[u8]>) -> Option<Seq<u8>> {
    match host {
        Some(h) => Some(h@),
        None => None,
    }
}

/// Writes the answer to a request that goes to no function.
pub fn refuse(why: &Refusal) -> (reply: Reply)
    ensures
        reply@ == refusal(*why),
{
    match why {
        Refusal::Gone => plain_reply(410, owned("worker unregistered")),
        Refusal::NoHost => plain_reply(400, owned("could not find Host header")),
        Refusal::BadHost => {
            let mut causes: Vec<Vec<u8>> = Vec::new();
            causes.push(owned("failed to convert header to a str"));
            assert(lines(causes@) =~= seq!["failed to convert header to a str".spec_bytes()]);
            plain_reply(400, report("could not parse Host header", &causes))
        },
        Refusal::Unregister => plain_reply(200, owned("successfully set server in draining state")),
        Refusal::BadLabel(e) => {
            let mut body = owned("invalid tx hash encoding: ");
            let text = describe_decode_error(e);
            append(&mut body, text.as_slice());
            plain_reply(400, body)
        },
    }
}

/// Takes in a request whose files are told apart by `slug`: finds where it
/// goes, and either starts it on its way or ends it at once.
pub fn serverless_with(running: bool, host: Option<&[u8]>, request: Request, slug: String) -> (res:
    (Session, Action))
    ensures
        res.1@ == first_action(route_of(running, host_view(host))),
        res.0.wf(),
        res.0.stage == stage_after(res.1@),
        res.0.slug == slug,
        res.0.request == request,
        res.0.cgroup is None,
        res.0.config is None,
        res.0.pending is None,
        route_of(running, host_view(host)) matches Ok(id) ==> {
            &&& res.0.id is Some
            &&& res.0.id->Some_0@ == id
            &&& res.0.tx_hash@ == id_hex(id)
            &&& res.0.host@ == host->Some_0@
        },
{
    match route(running, host) {
        Ok(id) => {
            let tx_hash = id.to_hex();
            let mut kept: Vec<u8> = Vec::new();
            match host {
                Some(h) => append(&mut kept, h),
                None => {},
            }
            let session = Session {
                stage: Stage::Ensuring,
                id: Some(id),
                tx_hash,
                slug,
                host: kept,
                request,
                cgroup: None,
                port: 0,
                config: None,
                pending: None,
            };
            (session, Action::EnsureCode)
        },
        Err(why) => {
            let reply = refuse(&why);
            let drain = match why {
                Refusal::Unregister => true,
                _ => false,
            };
            let session = Session {
                stage: Stage::Done,
                id: None,
                tx_hash: String::new(),
                slug,
                host: Vec::new(),
                request,
                cgroup: None,
                port: 0,
                config: None,
                pending: None,
            };
            (session, Action::Finish(Finish { drain, reply }))
        },
    }
}

/// Takes in a request: gives it a slug of its own, finds where it goes, and
/// either starts it on its way or ends it at once.
pub fn serverless(running: bool, host: Option<&[u8]>, request: Request) -> (res: (Session, Action))
    ensures
        res.1@ == first_action(route_of(running, host_view(host))),
        res.0.wf(),
        res.0.stage == stage_after(res.1@),
        exists|token: u32| res.0.slug@ == slug_text(token),
        res.0.request == request,
        res.0.cgroup is None,
        res.0.config is None,
        res.0.pending is None,
        route_of(running, host_view(host)) matches Ok(id) ==> {
            &&& res.0.id is Some
            &&& res.0.id->Some_0@ == id
            &&& res.0.tx_hash@ == id_hex(id)
            &&& res.0.host@ == host->Some_0@
        },
{
    serverless_with(running, host, request, new_slug())
}

impl Session {
    /// Ends the request with `reply`. A request that holds a slot asks for
    /// the cleanup and keeps the slot and the answer until that is over; one
    /// that holds nothing is answered at once.
    fn end(&mut self, reply: Reply) -> (action: Action)
        requires
            old(self).wf(),
            old(self).stage != Stage::Stopping,
        ensures
            final(self).wf(),
            action@ == closing(*old(self), reply@),
            final(self).stage == stage_after(action@),
            final(self).cgroup == old(self).cgroup,
            final(self).config is None,
            pending_view(final(self).pending) == (if old(self).cgroup is Some {
                Some(
                    (
                        reply@,
                        old(self).stage == Stage::Readying || old(self).stage == Stage::Proxying,
                    ),
                )
            } else {
                None
            }),
            final(self).id == old(self).id,
            final(self).tx_hash == old(self).tx_hash,
            final(self).slug == old(self).slug,
            final(self).host == old(self).host,
            final(self).request == old(self).request,
            final(self).port == old(self).port,
    {
        let kill_worker = match self.stage {
            Stage::Readying => true,
            Stage::Proxying => true,
            _ => false,
        };
        let remove_config = self.config.take();
        if self.cgroup.is_some() {
            self.pending = Some(Pending { reply, kill_worker });
            self.stage = Stage::Stopping;
            Action::Teardown(Teardown { kill_worker, remove_config })
        } else {
            self.stage = Stage::Done;
            Action::Finish(Finish { drain: false, reply })
        }
    }

    /// Takes the report on the cleanup: once it is over the slot goes back to
    /// the pool and the answer that waited is given; until then the cleanup
    /// is asked for again.
    fn stop(&mut self, pool: &mut Cgroups, over: bool) -> (action: Action)
        requires
            old(self).wf(),
            old(self).stage == Stage::Stopping,
            old(pool).wf(),
        ensures
            final(self).wf(),
            final(pool).wf(),
            over ==> {
                &&& action@ == (ActionView::Finish {
                    drain: false,
                    reply: old(self).pending->Some_0.reply@,
                })
                &&& final(pool)@ == old(pool)@.release(old(self).cgroup->Some_0@)
                &&& final(self).cgroup is None
                &&& final(self).pending is None
            },
            !over ==> {
                &&& action@ == (ActionView::Teardown {
                    kill_worker: old(self).pending->Some_0.kill_worker,
                    remove_config: None,
                })
                &&& final(pool)@ == old(pool)@
                &&& final(self).cgroup == old(self).cgroup
                &&& pending_view(final(self).pending) == pending_view(old(self).pending)
            },
            final(self).stage == stage_after(action@),
            final(self).config is None,
            final(self).id == old(self).id,
            final(self).tx_hash == old(self).tx_hash,
            final(self).slug == old(self).slug,
            final(self).host == old(self).host,
            final(self).request == old(self).request,
            final(self).port == old(self).port,
    {
        if over {
            let cgroup = self.cgroup.take().unwrap();
            pool.release(cgroup);
            let waiting = self.pending.take().unwrap();
            self.stage = Stage::Done;
            Action::Finish(Finish { drain: false, reply: waiting.reply })
        } else {
            let kill_worker = self.pending.as_ref().unwrap().kill_worker;
            Action::Teardown(Teardown { kill_worker, remove_config: None })
        }
    }

    /// Writes the answer to a request whose code file could not be made.
    fn code_failed(e: &ServerlessError) -> (reply: Reply)
        ensures
            reply@ == code_failure(*e),
    {
        match e {
            ServerlessError::TxNotFound
            | ServerlessError::InvalidTxToType
            | ServerlessError::InvalidTxToValue(_, _)
            | ServerlessError::InvalidTxCalldataType
            | ServerlessError::BadCalldata(_) => plain_reply(
                400,
                report_error("failed to create code file", e),
            ),
            ServerlessError::CalldataRetrieve(_)
            | ServerlessError::CodeFileCreate(_)
            | ServerlessError::CodeFileCount(_)
            | ServerlessError::UpdateModifiedTime(_) => plain_reply(
                500,
                report_error("failed to create code file", e),
            ),
            _ => plain_reply(
                500,
                report_error("unexpected error while trying to create code file", e),
            ),
        }
    }

    /// Takes what happened to the last request for work and says what to do
    /// next.
    ///
    /// The way of a request: code file, slot, config file, sandbox, port,
    /// answer. A failure on the way or an event out of order ends the request.
    /// A request that ends while it holds a slot first asks for the cleanup,
    /// naming the sandbox to kill and the config file to remove; the slot
    /// goes back to the pool only when the cleanup is reported to be over,
    /// and the answer is given then. A request that gets a signed answer adds
    /// the time it took to its function's total.
    pub fn step(
        &mut self,
        state: &AppState,
        pool: &mut Cgroups,
        ledger: &mut BillingLedger,
        event: Event,
    ) -> (action: Action)
        requires
            old(self).wf(),
            old(pool).wf(),
            old(ledger).wf(),
        ensures
            final(self).wf(),
            final(pool).wf(),
            final(ledger).wf(),
            action@ == next_action(*old(self), *state, old(pool)@, event),
            final(pool)@ == pool_after(*old(self), *state, old(pool)@, event),
            final(ledger)@ == ledger_after(*old(self), *state, old(ledger)@, event),
            final(self).stage == stage_after(action@),
            text_view(final(self).cgroup) == cgroup_after(*old(self), *state, old(pool)@, event),
            text_view(final(self).config) == config_after(*old(self), *state, old(pool)@, event),
            pending_view(final(self).pending) == pending_after(
                *old(self),
                *state,
                old(pool)@,
                event,
            ),
            action@ is Teardown ==> {
                &&& final(pool)@ == old(pool)@
                &&& final(self).cgroup == old(self).cgroup
            },
            final(self).id == old(self).id,
            final(self).tx_hash == old(self).tx_hash,
            final(self).slug == old(self).slug,
            final(self).host == old(self).host,
            final(self).request == old(self).request,
            action@ is WriteConfig ==> final(self).cgroup is Some && final(self).cgroup->Some_0@
                == old(pool)@.free[0] && final(self).config is Some && final(self).config->Some_0@
                == action@->WriteConfig_path && port_of(encode_utf8(old(pool)@.free[0])) == Ok::<
                u16,
                crate::encoding::NumberError,
            >(final(self).port),
            !(action@ is WriteConfig) ==> final(self).port == old(self).port,
            !(action@ is WriteConfig) && !(action@ is Finish) && !(action@ is Teardown) ==> {
                &&& final(self).cgroup == old(self).cgroup
                &&& final(self).config == old(self).config
            },
    {
        match self.stage {
            Stage::Stopping => {
                let over = match &event {
                    Event::TornDown => true,
                    _ => false,
                };
                return self.stop(pool, over);
            },
            _ => {},
        }
        match (self.stage, event) {
            (Stage::Ensuring, Event::Code(Err(e))) => {
                let reply = Self::code_failed(&e);
                self.end(reply)
            },
            (Stage::Ensuring, Event::Code(Ok(_))) => {
                let ghost free = pool@.free;
                match pool.reserve() {
                    Err(_) => {
                        let reply = plain_reply(
                            429,
                            owned("no free cgroup available to run request"),
                        );
                        self.end(reply)
                    },
                    Ok(cgroup) => {
                        match get_port(cgroup.as_str()) {
                            Err(e) => {
                                pool.release(cgroup);
                                let reply = plain_reply(
                                    500,
                                    report_error("failed to get port for cgroup", &e),
                                );
                                self.end(reply)
                            },
                            Ok(port) => {
                                let file = create_config_file(
                                    self.tx_hash.as_str(),
                                    self.slug.as_str(),
                                    state.runtime_path.as_str(),
                                    port,
                                );
                                self.config = Some(file.path.clone());
                                self.cgroup = Some(cgroup);
                                self.port = port;
                                self.stage = Stage::Configuring;
                                Action::WriteConfig(file)
                            },
                        }
                    },
                }
            },
            (Stage::Configuring, Event::ConfigWritten(Err(cause))) => {
                let e = ServerlessError::ConfigFileCreate(cause);
                let reply = plain_reply(
                    500,
                    report_error("unexpected error while trying to create code file", &e),
                );
                self.end(reply)
            },
            (Stage::Configuring, Event::ConfigWritten(Ok(_))) => {
                let command = match &self.cgroup {
                    Some(cgroup) => execute(
                        self.tx_hash.as_str(),
                        self.slug.as_str(),
                        state.runtime_path.as_str(),
                        cgroup.as_str(),
                    ),
                    None => Vec::new(),
                };
                self.stage = Stage::Launching;
                Action::Launch(command)
            },
            (Stage::Launching, Event::Launched(Err(cause))) => {
                let e = ServerlessError::Execute(CgroupsError::Execute(cause));
                let reply = plain_reply(400, report_error("failed to execute worker", &e));
                self.end(reply)
            },
            (Stage::Launching, Event::Launched(Ok(_))) => {
                self.stage = Stage::Readying;
                Action::AwaitReady(self.port)
            },
            (Stage::Readying, Event::Ready { ready, stderr }) => {
                if ready {
                    self.stage = Stage::Proxying;
                    Action::Proxy(upstream_url(self.port, self.request.path_and_query.as_str()))
                } else {
                    let syntax = contains(stderr.as_slice(), "SyntaxError".as_bytes());
                    let mut body = if syntax {
                        owned("syntax error in the code: ")
                    } else {
                        owned("failed to execute worker: ")
                    };
                    append(&mut body, stderr.as_slice());
                    let reply = plain_reply(
                        if syntax {
                            400
                        } else {
                            500
                        },
                        body,
                    );
                    self.end(reply)
                }
            },
            (Stage::Proxying, Event::Proxied(ProxyOutcome::TimedOut)) => {
                let mut causes: Vec<Vec<u8>> = Vec::new();
                causes.push(owned("deadline has elapsed"));
                assert(lines(causes@) =~= seq!["deadline has elapsed".spec_bytes()]);
                let reply = plain_reply(408, report("worker timed out", &causes));
                self.end(reply)
            },
            (Stage::Proxying, Event::Proxied(ProxyOutcome::Failed(cause))) => {
                let mut causes: Vec<Vec<u8>> = Vec::new();
                causes.push(owned(cause.as_str()));
                assert(lines(causes@) =~= seq![encode_utf8(cause@)]);
                let reply = plain_reply(500, report("failed to get a response", &causes));
                self.end(reply)
            },
            (
                Stage::Proxying,
                Event::Proxied(ProxyOutcome::Answered { reply, timestamp, millis }),
            ) => {
                match get_workerd_response(
                    reply,
                    &self.request,
                    state.signer.as_slice(),
                    self.host.as_slice(),
                    timestamp,
                ) {
                    Ok(signed) => {
                        match &self.id {
                            Some(id) => {
                                let _ = ledger.record(id, millis as u128);
                            },
                            None => {},
                        }
                        self.end(signed)
                    },
                    Err(_) => {
                        let mut causes: Vec<Vec<u8>> = Vec::new();
                        causes.push(owned("signature error"));
                        assert(lines(causes@) =~= seq!["signature error".spec_bytes()]);
                        let reply = plain_reply(500, report("failed to get a response", &causes));
                        self.end(reply)
                    },
                }
            },
            _ => {
                let reply = plain_reply(500, owned("event out of order"));
                self.end(reply)
            },
        }
    }
}

/// A request that has a config file asks for its removal when it ends,
/// however it ends; a cleanup that is asked for names no other file, and the
/// answer itself asks for no removal.
pub proof fn config_file_leaves_with_request(
    session: Session,
    state: AppState,
    pool: PoolView,
    event: Event,
)
    requires
        session.wf(),
    ensures
        session.config is Some && verdict(session, state, pool, event) is End ==> next_action(
            session,
            state,
            pool,
            event,
        ) == (ActionView::Teardown {
            kill_worker: session.stage == Stage::Readying || session.stage == Stage::Proxying,
            remove_config: text_view(session.config),
        }),
        next_action(session, state, pool, event) is Teardown ==> next_action(
            session,
            state,
            pool,
            event,
        )->Teardown_remove_config == text_view(session.config),
{
}

/// A request that goes on keeps the stage in order: the config file is asked
/// for once, when the slot is taken, and the sandbox is started only by a
/// request that holds a slot.
pub proof fn sandbox_needs_slot(session: Session, state: AppState, pool: PoolView, event: Event)
    requires
        session.wf(),
    ensures
        next_action(session, state, pool, event) is WriteConfig ==> session.stage
            == Stage::Ensuring && pool.free.len() > 0,
        next_action(session, state, pool, event) is Launch ==> session.cgroup is Some,
        sandbox_runs(stage_after(next_action(session, state, pool, event))) ==> session.cgroup
            is Some,
{
}

/// The slot outlasts the sandbox. A request that ends while it holds a slot
/// asks for the kill of the sandbox it started and keeps the slot; the slot
/// goes back to the pool in the step that takes the report that the cleanup
/// is over, and in no other. So no slot is free while its sandbox may run.
pub proof fn slot_outlasts_sandbox(session: Session, state: AppState, pool: PoolView, event: Event)
    requires
        session.wf(),
        pool.balanced(),
        pool.distinct(),
    ensures
        next_action(session, state, pool, event) is Teardown ==> {
            &&& pool_after(session, state, pool, event) == pool
            &&& cgroup_after(session, state, pool, event) == text_view(session.cgroup)
            &&& session.cgroup is Some
            &&& (session.stage == Stage::Readying || session.stage == Stage::Proxying)
                ==> next_action(session, state, pool, event)->Teardown_kill_worker
        },
        next_action(session, state, pool, event) is Finish && session.cgroup is Some ==> {
            &&& session.stage == Stage::Stopping
            &&& event is TornDown
            &&& pool_after(session, state, pool, event) == pool.release(session.cgroup->Some_0@)
        },
        session.cgroup is Some && !(session.stage == Stage::Stopping && event is TornDown)
            ==> pool_after(session, state, pool, event) == pool,
        pool.in_use.len() <= pool.capacity,
        pool_after(session, state, pool, event).balanced(),
        pool_after(session, state, pool, event).in_use.len() <= pool.capacity,
{
    pool.reserve_keeps_order();
    if session.cgroup is Some {
        pool.release_keeps_order(session.cgroup->Some_0@);
    } else if pool.free.len() > 0 {
        pool.reserve().release_keeps_order(pool.free[0]);
    }
}

/// What the node's bookkeeping sees of a request: its stage and the slot it
/// holds.
pub struct Holder {
    pub stage: Stage,
    pub cgroup: Option<Seq<char>>,
}

impl Holder {
    /// A request holds a slot exactly while its stage says so.
    pub open spec fn wf(self) -> bool {
        holds_slot(self.stage) <==> self.cgroup is Some
    }
}

/// What the bookkeeping sees of a session.
pub open spec fn holder(session: Session) -> Holder {
    Holder { stage: session.stage, cgroup: text_view(session.cgroup) }
}

/// A slot that may be absent, as a collection of at most one slot.
pub open spec fn one(cgroup: Option<Seq<char>>) -> Multiset<Seq<char>> {
    match cgroup {
        Some(c) => Multiset::singleton(c),
        None => Multiset::empty(),
    }
}

/// The slots that the requests hold, each as often as it is held.
pub open spec fn held(requests: Seq<Holder>) -> Multiset<Seq<char>>
    decreases requests.len(),
{
    if requests.len() == 0 {
        Multiset::empty()
    } else {
        held(requests.drop_last()).add(one(requests.last().cgroup))
    }
}

/// The number of requests whose sandbox runs.
pub open spec fn sandboxes(requests: Seq<Holder>) -> nat
    decreases requests.len(),
{
    if requests.len() == 0 {
        0
    } else {
        sandboxes(requests.drop_last()) + (if sandbox_runs(requests.last().stage) {
            1nat
        } else {
            0nat
        })
    }
}

/// The node is in order: every slot of the pool is free or checked out, none
/// stands there twice, and the slots that are checked out are those that the
/// requests hold.
pub open spec fn in_order(pool: PoolView, requests: Seq<Holder>) -> bool {
    &&& pool.balanced()
    &&& pool.distinct()
    &&& forall|i: int| 0 <= i < requests.len() ==> (#[trigger] requests[i]).wf()
    &&& held(requests) == pool.in_use.to_multiset()
}

/// Exchanging one request changes the slots held by what that request held
/// and holds.
pub proof fn held_after_update(requests: Seq<Holder>, i: int, next: Holder, c: Seq<char>)
    requires
        0 <= i < requests.len(),
    ensures
        held(requests.update(i, next)).count(c) + one(requests[i].cgroup).count(c) == held(
            requests,
        ).count(c) + one(next.cgroup).count(c),
    decreases requests.len(),
{
    broadcast use vstd::multiset::group_multiset_axioms;

    let after = requests.update(i, next);
    if i == requests.len() - 1 {
        assert(after.drop_last() =~= requests.drop_last());
    } else {
        held_after_update(requests.drop_last(), i, next, c);
        assert(after.drop_last() =~= requests.drop_last().update(i, next));
        assert(requests.drop_last()[i] == requests[i]);
    }
}

/// There are no more sandboxes than slots held.
pub proof fn sandboxes_hold_slots(requests: Seq<Holder>)
    requires
        forall|i: int| 0 <= i < requests.len() ==> (#[trigger] requests[i]).wf(),
    ensures
        sandboxes(requests) <= held(requests).len(),
    decreases requests.len(),
{
    broadcast use vstd::multiset::group_multiset_axioms;

    if requests.len() > 0 {
        let rest = requests.drop_last();
        assert forall|i: int| 0 <= i < rest.len() implies (#[trigger] rest[i]).wf() by {
            assert(rest[i] == requests[i]);
        }
        sandboxes_hold_slots(rest);
        assert(requests.last().wf());
    }
}

/// In a node that is in order there are never more sandboxes than slots
/// checked out, and never more of those than the pool has.
pub proof fn sandboxes_within_capacity(pool: PoolView, requests: Seq<Holder>)
    requires
        in_order(pool, requests),
    ensures
        sandboxes(requests) <= pool.in_use.len() <= pool.capacity,
{
    sandboxes_hold_slots(requests);
    vstd::seq_lib::to_multiset_len(pool.in_use);
}

/// A new request, which holds no slot yet, leaves the node in order.
pub proof fn arrival_keeps_order(pool: PoolView, requests: Seq<Holder>, stage: Stage)
    requires
        in_order(pool, requests),
        !holds_slot(stage),
    ensures
        in_order(pool, requests.push(Holder { stage, cgroup: None })),
{
    broadcast use vstd::multiset::group_multiset_axioms;

    let next = requests.push(Holder { stage, cgroup: None });
    assert(next.drop_last() =~= requests);
    assert(held(next) =~= held(requests));
}

/// Whatever happens to whichever request, the node stays in order: the step
/// of request `i` changes the pool by exactly the slot that the request takes
/// or gives back.
pub proof fn step_keeps_order(
    pool: PoolView,
    requests: Seq<Holder>,
    i: int,
    session: Session,
    state: AppState,
    event: Event,
)
    requires
        in_order(pool, requests),
        0 <= i < requests.len(),
        session.wf(),
        holder(session) == requests[i],
    ensures
        in_order(
            pool_after(session, state, pool, event),
            requests.update(
                i,
                Holder {
                    stage: stage_after(next_action(session, state, pool, event)),
                    cgroup: cgroup_after(session, state, pool, event),
                },
            ),
        ),
{
    broadcast use vstd::multiset::group_multiset_axioms;

    let action = next_action(session, state, pool, event);
    let next = Holder { stage: stage_after(action), cgroup: cgroup_after(session, state, pool, event) };
    let after = requests.update(i, next);
    let pool2 = pool_after(session, state, pool, event);
    let before = text_view(session.cgroup);
    assert(next.wf());
    assert forall|j: int| 0 <= j < after.len() implies (#[trigger] after[j]).wf() by {
        if j != i {
            assert(after[j] == requests[j]);
        }
    }
    pool.reserve_keeps_order();
    if session.cgroup is Some {
        pool.release_keeps_order(session.cgroup->Some_0@);
    } else if pool.free.len() > 0 {
        pool.reserve().release_keeps_order(pool.free[0]);
    }
    let taking = session.stage == Stage::Ensuring && event is Code && event->Code_0 is Ok
        && pool.free.len() > 0;
    if taking {
        let slot = pool.free[0];
        let reserved = pool.reserve();
        vstd::seq_lib::to_multiset_build(pool.in_use, slot);
        if port_of(encode_utf8(slot)) is Err {
            crate::cgroups::first_position_is_first(reserved.in_use, slot);
            assert(reserved.in_use[reserved.in_use.len() - 1] == slot);
            assert(reserved.in_use.contains(slot));
            let p = crate::cgroups::first_position(reserved.in_use, slot);
            vstd::seq_lib::to_multiset_remove(reserved.in_use, p);
            assert(pool2.in_use.to_multiset() =~= pool.in_use.to_multiset());
        }
    } else if action is Finish && session.cgroup is Some {
        let slot = session.cgroup->Some_0@;
        assert(held(requests).count(slot) > 0) by {
            held_counts_member(requests, i);
        }
        vstd::seq_lib::to_multiset_contains(pool.in_use, slot);
        crate::cgroups::first_position_is_first(pool.in_use, slot);
        let p = crate::cgroups::first_position(pool.in_use, slot);
        vstd::seq_lib::to_multiset_remove(pool.in_use, p);
    }
    assert forall|c: Seq<char>| held(after).count(c) == pool2.in_use.to_multiset().count(c) by {
        held_after_update(requests, i, next, c);
    }
    assert(held(after) =~= pool2.in_use.to_multiset());
}

/// A slot that a request holds is among the slots held.
pub proof fn held_counts_member(requests: Seq<Holder>, i: int)
    requires
        0 <= i < requests.len(),
        requests[i].cgroup is Some,
    ensures
        held(requests).count(requests[i].cgroup->Some_0) > 0,
    decreases requests.len(),
{
    broadcast use vstd::multiset::group_multiset_axioms;

    if i < requests.len() - 1 {
        held_counts_member(requests.drop_last(), i);
        assert(requests.drop_last()[i] == requests[i]);
    }
}

/// The number of config files that an action adds to the runtime directory:
/// one where it asks for one to be written, one less where it asks for one to
/// be removed.
pub open spec fn config_files_added(action: ActionView) -> int {
    match action {
        ActionView::WriteConfig { .. } => 1,
        ActionView::Teardown { remove_config: Some(_), .. } => -1,
        _ => 0,
    }
}

/// The number of config files that a request has in the runtime directory.
pub open spec fn config_files_of(config: Option<Seq<char>>) -> int {
    if config is Some {
        1
    } else {
        0
    }
}

/// A request accounts for its config file at every step: what its actions
/// add to the runtime directory is what it remembers having there. A request
/// starts and ends with none, so that it leaves the directory with as many
/// config files as it found.
pub proof fn config_files_balance(session: Session, state: AppState, pool: PoolView, event: Event)
    requires
        session.wf(),
    ensures
        config_files_of(config_after(session, state, pool, event)) == config_files_of(
            text_view(session.config),
        ) + config_files_added(next_action(session, state, pool, event)),
        (next_action(session, state, pool, event) is Finish || next_action(
            session,
            state,
            pool,
            event,
        ) is Teardown) ==> config_after(session, state, pool, event) is None,
{
}

/// A request is taken in without a config file, and the first action adds
/// none.
pub proof fn request_starts_without_config(running: bool, host: Option<Seq<u8>>)
    ensures
        config_files_added(first_action(route_of(running, host))) == 0,
{
}

/// A node that drains serves nothing, whatever the host; and no step of a
/// request that is under way takes the node out of service or back into it.
pub proof fn drain_is_final(
    host: Option<Seq<u8>>,
    session: Session,
    state: AppState,
    pool: PoolView,
    event: Event,
)
    ensures
        first_action(route_of(false, host)) == (ActionView::Finish {
            drain: false,
            reply: plain(410, "worker unregistered".spec_bytes()),
        }),
        next_action(session, state, pool, event) is Finish ==> !next_action(
            session,
            state,
            pool,
            event,
        )->Finish_drain,
{
}

/// In a node that is in order no slot is held twice: two requests that hold
/// a slot hold different slots, so that no slot runs two sandboxes.
pub proof fn one_request_per_slot(pool: PoolView, requests: Seq<Holder>, i: int, j: int)
    requires
        in_order(pool, requests),
        0 <= i < requests.len(),
        0 <= j < requests.len(),
        i != j,
        requests[i].cgroup is Some,
    ensures
        requests[i].cgroup != requests[j].cgroup,
{
    broadcast use vstd::multiset::group_multiset_axioms;

    let slot = requests[i].cgroup->Some_0;
    pool.checkouts_are_distinct();
    pool.in_use.lemma_multiset_has_no_duplicates();
    assert(held(requests).count(slot) <= 1);
    if requests[j].cgroup == requests[i].cgroup {
        let without = requests.update(i, Holder { stage: Stage::Done, cgroup: None });
        held_after_update(requests, i, Holder { stage: Stage::Done, cgroup: None }, slot);
        assert(without[j] == requests[j]);
        held_counts_member(without, j);
    }
}

} // verus!
