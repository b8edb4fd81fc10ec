use serverless::billing_handler::BillingLedger;
use serverless::cgroups::Cgroups;
use serverless::error::ServerlessError;
use serverless::file_manager::{create_code_file, CodeEvent, CodeStep, CreateOutcome, Transaction};
use serverless::handler::{
    serverless, serverless_with, Action, Event, Finish, ProxyOutcome, Session, Stage,
};
use serverless::model::{AppState, FunctionId};
use serverless::workerd::{signing_bytes, Header, Reply, Request};

const CONTRACT: &str = "0x44fe06d2940b8782a0a9a9ffd09c65852c0156b1";
const FACTORS: &str = "SRULW2UOQXWRDYUSZDFMBQKTTX3JDSGY5RROPW72T4N5P5IE4RXA.oyster.run";

fn state() -> AppState {
    AppState::new(
        "./runtime/".to_string(),
        "https://sepolia-rollup.arbitrum.io/rpc".to_string(),
        CONTRACT.to_string(),
        vec![7u8; 32],
    )
    .unwrap()
}

fn pool() -> Cgroups {
    Cgroups::new(Ok(vec!["workerd_1".to_string(), "workerd_2".to_string()])).unwrap()
}

fn post(path: &str, body: &str) -> Request {
    Request {
        method: "POST".to_string(),
        path_and_query: path.to_string(),
        body: body.as_bytes().to_vec(),
    }
}

/// How a request ended: what it asked to be cleaned up, and what it answered.
struct End {
    drain: bool,
    kill_worker: bool,
    remove_config: Option<String>,
    reply: Reply,
}

/// The end of a request that holds no slot: it is answered at once.
fn finish(action: Action) -> End {
    match action {
        Action::Finish(Finish { drain, reply }) => {
            End { drain, kill_worker: false, remove_config: None, reply }
        }
        other => panic!("the request goes on: {:?}", other),
    }
}

/// The end of a request that holds a slot: it asks for the cleanup, keeps
/// the slot until the cleanup is over, and answers then.
fn cleaned(node: &mut Node, session: &mut Session, action: Action) -> End {
    let cleanup = match action {
        Action::Teardown(cleanup) => cleanup,
        other => panic!("no cleanup asked for: {:?}", other),
    };
    assert_eq!(session.stage, Stage::Stopping);
    let slot = session.cgroup.clone().unwrap();
    assert!(!node.pool.free().contains(&slot));
    let held = node.pool.in_use_count();
    assert!(held >= 1);
    let action = session.step(&node.state, &mut node.pool, &mut node.ledger, Event::TornDown);
    assert_eq!(session.stage, Stage::Done);
    assert!(session.cgroup.is_none());
    assert_eq!(node.pool.in_use_count(), held - 1);
    assert_eq!(node.pool.free().last(), Some(&slot));
    let end = finish(action);
    End {
        drain: end.drain,
        kill_worker: cleanup.kill_worker,
        remove_config: cleanup.remove_config,
        reply: end.reply,
    }
}

fn text(bytes: &[u8]) -> String {
    String::from_utf8(bytes.to_vec()).unwrap()
}

struct Node {
    state: AppState,
    pool: Cgroups,
    ledger: BillingLedger,
}

fn node() -> Node {
    Node { state: state(), pool: pool(), ledger: BillingLedger::new() }
}

/// Takes a request in and hands its code file outcome to it.
fn with_code(node: &mut Node, host: &str, request: Request, code: Result<(), ServerlessError>) -> (Session, Action) {
    let (mut session, action) =
        serverless_with(true, Some(host.as_bytes()), request, "0a0b0c0d".to_string());
    assert!(matches!(action, Action::EnsureCode));
    let action = session.step(&node.state, &mut node.pool, &mut node.ledger, Event::Code(code));
    (session, action)
}

/// Takes a request all the way to the exchange with its sandbox.
fn to_proxy(node: &mut Node, host: &str, request: Request) -> Session {
    let (mut session, action) = with_code(node, host, request, Ok(()));
    assert!(matches!(action, Action::WriteConfig(_)));
    let action =
        session.step(&node.state, &mut node.pool, &mut node.ledger, Event::ConfigWritten(Ok(())));
    assert!(matches!(action, Action::Launch(_)));
    let action =
        session.step(&node.state, &mut node.pool, &mut node.ledger, Event::Launched(Ok(())));
    match action {
        Action::AwaitReady(port) => assert_eq!(port, session.port),
        other => panic!("no wait for the port: {:?}", other),
    }
    let action = session.step(
        &node.state,
        &mut node.pool,
        &mut node.ledger,
        Event::Ready { ready: true, stderr: Vec::new() },
    );
    match action {
        Action::Proxy(url) => assert_eq!(
            url,
            format!("http://127.0.0.1:{}{}", session.port, session.request.path_and_query)
        ),
        other => panic!("no exchange: {:?}", other),
    }
    session
}

/// Serves one request whose sandbox answers `worker_body`.
fn served(node: &mut Node, host: &str, request: Request, worker_body: &str) -> End {
    let mut session = to_proxy(node, host, request);
    let upstream = Reply {
        status: 200,
        headers: vec![Header { name: b"content-type".to_vec(), value: b"text/plain".to_vec() }],
        body: worker_body.as_bytes().to_vec(),
    };
    let action = session.step(
        &node.state,
        &mut node.pool,
        &mut node.ledger,
        Event::Proxied(ProxyOutcome::Answered { reply: upstream, timestamp: 1700000000, millis: 12 }),
    );
    cleaned(node, &mut session, action)
}

fn header<'a>(reply: &'a Reply, name: &str) -> Option<&'a [u8]> {
    reply.headers.iter().find(|h| h.name == name.as_bytes()).map(|h| h.value.as_slice())
}

fn check_factors(host: &str, method: &str, path: &str) {
    let mut node = node();
    for (num, factors) in [("10", "2,5"), ("20", "2,2,5"), ("600", "2,2,2,3,5,5")] {
        let request = Request {
            method: method.to_string(),
            path_and_query: path.to_string(),
            body: format!("{{\"num\":{}}}", num).into_bytes(),
        };
        let end = served(&mut node, host, request, factors);
        assert_eq!(end.reply.status, 200);
        assert_eq!(text(&end.reply.body), factors);
        assert_eq!(header(&end.reply, "X-Oyster-Signature").unwrap().len(), 130);
        assert_eq!(header(&end.reply, "X-Oyster-Timestamp").unwrap(), b"1700000000");
        assert!(end.kill_worker);
        assert_eq!(
            end.remove_config.as_deref(),
            Some("./runtime//0x9468bb6a8e85ed11e292c8cac0c1539df691c8d8ec62e7dbfa9f1bd7f504e46e-0a0b0c0d.capnp")
        );
        assert_eq!(node.pool.free_count(), 2);
    }
}

#[test]
fn valid_input_test() {
    check_factors(FACTORS, "POST", "/");
}

#[test]
fn valid_input_lowercase_test() {
    check_factors("srulw2uoqxwrdyuszdfmbqkttx3jdsgy5rropw72t4n5p5ie4rxa.oyster.run", "POST", "/");
}

#[test]
fn valid_input_different_uri_test() {
    check_factors(FACTORS, "POST", "/serverless");
}

#[test]
fn valid_input_different_method_test() {
    check_factors(FACTORS, "GET", "/");
}

#[test]
fn interacting_with_wrong_smartcontract() {
    let host = "73MKWNWME6BRQNXW3S3SSECJCWFU3DPTDQH7WBND2NV2MVK6FHLQ.oyster.run";
    let id = FunctionId::from_label(&host.as_bytes()[..52]).unwrap();
    assert_eq!(
        id.to_hex(),
        "0xfed8ab36cc27831836f6dcb7291049158b4d8df31c0ffb05a3d36ba6555e29d7"
    );
    let (mut job, step) = create_code_file(&id.to_hex(), "./runtime/", "rpc", CONTRACT);
    assert!(matches!(step, CodeStep::ProbeCode));
    assert!(matches!(job.step(CodeEvent::Probed(false)), CodeStep::ListCode));
    assert!(matches!(job.step(CodeEvent::Listed(Ok(Vec::new()))), CodeStep::CreateTemp));
    assert!(matches!(
        job.step(CodeEvent::Created(CreateOutcome::Created)),
        CodeStep::FetchTransaction
    ));
    let tx = Transaction {
        to: Some("0x0784e2d4551905f66269b133aa4f43fe3d23b707".to_string()),
        input: Some("0x".to_string()),
    };
    let failure = match job.step(CodeEvent::Fetched(Ok(Some(tx)))) {
        CodeStep::Abandon(e) => e,
        other => panic!("no removal asked for: {:?}", other),
    };
    let mut node = node();
    let (_, action) = with_code(&mut node, host, post("/", "{\"num\":10}"), Err(failure));
    let end = finish(action);
    assert_eq!(end.reply.status, 400);
    assert_eq!(
        text(&end.reply.body),
        "failed to create code file\n\nCaused by:\n    to address 0x0784e2d4551905f66269b133aa4f43fe3d23b707 does not match expected 0x44fe06d2940b8782a0a9a9ffd09c65852c0156b1"
    );
}

#[test]
fn invalid_txhash() {
    let host = "G6YLFWO5LDMRGB4B7SIU3JCWYFXMIAYBB2GUYJ5Q5JDFPISMQVDA.oyster.run";
    let (mut job, _) = create_code_file(
        "0x37b0b2d9dd58d9130781fc914da456c16ec403010e8d4c27b0ea4657a24c8546",
        "./runtime/",
        "rpc",
        CONTRACT,
    );
    job.step(CodeEvent::Probed(false));
    job.step(CodeEvent::Listed(Ok(Vec::new())));
    job.step(CodeEvent::Created(CreateOutcome::Created));
    let failure = match job.step(CodeEvent::Fetched(Ok(None))) {
        CodeStep::Abandon(e) => e,
        other => panic!("no removal asked for: {:?}", other),
    };
    let mut node = node();
    let (_, action) = with_code(&mut node, host, post("/", "{\"num\":10}"), Err(failure));
    let end = finish(action);
    assert_eq!(end.reply.status, 400);
    assert_eq!(text(&end.reply.body), "failed to create code file\n\nCaused by:\n    tx not found");
}

#[test]
fn txhash_not_provided() {
    let (session, action) = serverless(true, None, post("/", "{}"));
    let end = finish(action);
    assert_eq!(end.reply.status, 400);
    assert_eq!(text(&end.reply.body), "could not find Host header");
    assert_eq!(session.stage, Stage::Done);
}

#[test]
fn invalid_js_code_in_calldata() {
    let host = "SYLZ6YH5PEL4ASWZ3JW5MRUQUGUWB443KABJ2B4RTPZGFD26P7SQ.oyster.run";
    let mut node = node();
    let (mut session, _) = with_code(&mut node, host, post("/", "{\"num\":100}"), Ok(()));
    session.step(&node.state, &mut node.pool, &mut node.ledger, Event::ConfigWritten(Ok(())));
    session.step(&node.state, &mut node.pool, &mut node.ledger, Event::Launched(Ok(())));
    let stderr = "service main: Uncaught SyntaxError: Unexpected token 'export'\n  at main:1:1";
    let action = session.step(
        &node.state,
        &mut node.pool,
        &mut node.ledger,
        Event::Ready { ready: false, stderr: stderr.as_bytes().to_vec() },
    );
    let end = cleaned(&mut node, &mut session, action);
    assert_eq!(end.reply.status, 400);
    assert_eq!(
        text(&end.reply.body),
        "syntax error in the code: service main: Uncaught SyntaxError: Unexpected token 'export'\n  at main:1:1"
    );
    assert!(end.kill_worker);
    assert!(end.remove_config.is_some());
    assert_eq!(node.pool.free_count(), 2);
}

#[test]
fn invalid_payload_test() {
    let mut node = node();
    let end = served(
        &mut node,
        FACTORS,
        post("/", "{}"),
        "Please provide a valid integer as input in the format{'num':10}",
    );
    assert_eq!(end.reply.status, 200);
    assert_eq!(
        text(&end.reply.body),
        "Please provide a valid integer as input in the format{'num':10}"
    );
}

#[test]
fn response_timeout_test() {
    let host = "TNJKQVX65RLEDOOL5LW5CWQ2RUHF2LSQQIBXXXNFSVMRLLFOLKIQ.oyster.run";
    let mut node = node();
    let mut session = to_proxy(&mut node, host, post("/", "{}"));
    let action = session.step(
        &node.state,
        &mut node.pool,
        &mut node.ledger,
        Event::Proxied(ProxyOutcome::TimedOut),
    );
    let end = cleaned(&mut node, &mut session, action);
    assert_eq!(end.reply.status, 408);
    assert_eq!(text(&end.reply.body), "worker timed out\n\nCaused by:\n    deadline has elapsed");
    assert!(end.kill_worker);
    assert_eq!(node.pool.free_count(), 2);
    assert!(node.ledger.inspect().is_empty());
}

#[test]
fn invalid_tx_hash_encoding_test() {
    let host = "SRULW2UOQXWRDYUSZDFMBQKTTX3JDSGY5RROPW72T4N5P5IE4RX0.oyster.run";
    let (_, action) =
        serverless_with(true, Some(host.as_bytes()), post("/", "{\"num\":10}"), "00000000".to_string());
    let end = finish(action);
    assert_eq!(end.reply.status, 400);
    assert_eq!(
        text(&end.reply.body),
        "invalid tx hash encoding: DecodeError { position: 51, kind: Symbol }"
    );
}

#[test]
fn drain_then_gone() {
    let host = "unregister.oyster.run";
    let (_, action) = serverless(true, Some(host.as_bytes()), post("/", ""));
    let end = finish(action);
    assert!(end.drain);
    assert_eq!(end.reply.status, 200);
    assert_eq!(text(&end.reply.body), "successfully set server in draining state");
    let (_, action) = serverless(false, Some(FACTORS.as_bytes()), post("/", ""));
    let end = finish(action);
    assert!(!end.drain);
    assert_eq!(end.reply.status, 410);
    assert_eq!(text(&end.reply.body), "worker unregistered");
}

#[test]
fn host_with_unreadable_byte_is_refused() {
    let (_, action) = serverless(true, Some(&[0x61, 0xff, 0x2e, 0x62]), post("/", ""));
    let end = finish(action);
    assert_eq!(end.reply.status, 400);
    assert_eq!(
        text(&end.reply.body),
        "could not parse Host header\n\nCaused by:\n    failed to convert header to a str"
    );
}

#[test]
fn no_free_slot_is_too_many_requests() {
    let mut node = node();
    let _first = to_proxy(&mut node, FACTORS, post("/", "1"));
    let (mut second, _) = with_code(&mut node, FACTORS, post("/", "2"), Ok(()));
    assert_eq!(second.port, 11002);
    let (third, action) = with_code(&mut node, FACTORS, post("/", "3"), Ok(()));
    let end = finish(action);
    assert_eq!(end.reply.status, 429);
    assert_eq!(text(&end.reply.body), "no free cgroup available to run request");
    assert!(end.remove_config.is_none());
    assert!(!end.kill_worker);
    assert_eq!(third.stage, Stage::Done);
    assert_eq!(node.pool.free_count() + node.pool.in_use_count(), node.pool.capacity());
    let action = second.step(
        &node.state,
        &mut node.pool,
        &mut node.ledger,
        Event::ConfigWritten(Err("disk full".to_string())),
    );
    let end = cleaned(&mut node, &mut second, action);
    assert_eq!(end.reply.status, 500);
    assert_eq!(
        text(&end.reply.body),
        "unexpected error while trying to create code file\n\nCaused by:\n    0: failed to create config file\n    1: disk full"
    );
    assert!(end.remove_config.is_some());
    assert_eq!(node.pool.free_count(), 1);
}

#[test]
fn slot_without_port_goes_back() {
    let mut node = node();
    node.pool = Cgroups::new(Ok(vec!["workerd_x".to_string(), "workerd_3".to_string()])).unwrap();
    let (_, action) = with_code(&mut node, FACTORS, post("/", ""), Ok(()));
    let end = finish(action);
    assert_eq!(end.reply.status, 500);
    assert_eq!(
        text(&end.reply.body),
        "failed to get port for cgroup\n\nCaused by:\n    0: failed to retrieve port from cgroup\n    1: invalid digit found in string"
    );
    assert!(end.remove_config.is_none());
    assert!(!end.kill_worker);
    assert_eq!(node.pool.free(), &vec!["workerd_3".to_string(), "workerd_x".to_string()]);
    assert_eq!(node.pool.in_use_count(), 0);
}

#[test]
fn launch_failure_cleans_up() {
    let mut node = node();
    let (mut session, _) = with_code(&mut node, FACTORS, post("/", ""), Ok(()));
    session.step(&node.state, &mut node.pool, &mut node.ledger, Event::ConfigWritten(Ok(())));
    let action = session.step(
        &node.state,
        &mut node.pool,
        &mut node.ledger,
        Event::Launched(Err("No such file or directory (os error 2)".to_string())),
    );
    let end = cleaned(&mut node, &mut session, action);
    assert_eq!(end.reply.status, 400);
    assert_eq!(
        text(&end.reply.body),
        "failed to execute worker\n\nCaused by:\n    0: failed to execute workerd\n    1: failed to execute cgroups\n    2: No such file or directory (os error 2)"
    );
    assert!(!end.kill_worker);
    assert!(end.remove_config.is_some());
    assert_eq!(node.pool.free_count(), 2);
}

#[test]
fn sandbox_that_never_opens_its_port_is_a_server_fault() {
    let mut node = node();
    let (mut session, _) = with_code(&mut node, FACTORS, post("/", ""), Ok(()));
    session.step(&node.state, &mut node.pool, &mut node.ledger, Event::ConfigWritten(Ok(())));
    session.step(&node.state, &mut node.pool, &mut node.ledger, Event::Launched(Ok(())));
    let action = session.step(
        &node.state,
        &mut node.pool,
        &mut node.ledger,
        Event::Ready { ready: false, stderr: b"out of memory".to_vec() },
    );
    let end = cleaned(&mut node, &mut session, action);
    assert_eq!(end.reply.status, 500);
    assert_eq!(text(&end.reply.body), "failed to execute worker: out of memory");
    assert!(end.kill_worker);
}

#[test]
fn upstream_failure_is_a_server_fault() {
    let mut node = node();
    let mut session = to_proxy(&mut node, FACTORS, post("/", ""));
    let action = session.step(
        &node.state,
        &mut node.pool,
        &mut node.ledger,
        Event::Proxied(ProxyOutcome::Failed("connection reset".to_string())),
    );
    let end = cleaned(&mut node, &mut session, action);
    assert_eq!(end.reply.status, 500);
    assert_eq!(text(&end.reply.body), "failed to get a response\n\nCaused by:\n    connection reset");
}

#[test]
fn event_out_of_order_ends_the_request() {
    let mut node = node();
    let mut session = to_proxy(&mut node, FACTORS, post("/", ""));
    let action =
        session.step(&node.state, &mut node.pool, &mut node.ledger, Event::Launched(Ok(())));
    let end = cleaned(&mut node, &mut session, action);
    assert_eq!(end.reply.status, 500);
    assert_eq!(text(&end.reply.body), "event out of order");
    assert!(end.kill_worker);
    assert!(end.remove_config.is_some());
    assert_eq!(node.pool.free_count(), 2);
}

#[test]
fn code_failures_map_to_statuses() {
    let cases: Vec<(ServerlessError, u16, &str)> = vec![
        (
            ServerlessError::CalldataRetrieve("timeout".to_string()),
            500,
            "failed to create code file\n\nCaused by:\n    0: failed to retrieve calldata\n    1: timeout",
        ),
        (
            ServerlessError::InvalidTxToType,
            400,
            "failed to create code file\n\nCaused by:\n    to field of transaction is not an address",
        ),
        (
            ServerlessError::InvalidTxCalldataType,
            400,
            "failed to create code file\n\nCaused by:\n    calldata field of transaction is not a string",
        ),
        (
            ServerlessError::CodeFileCreate("denied".to_string()),
            500,
            "failed to create code file\n\nCaused by:\n    0: failed to create code file\n    1: denied",
        ),
        (
            ServerlessError::UpdateModifiedTime("denied".to_string()),
            500,
            "failed to create code file\n\nCaused by:\n    0: failed to update modified time of file\n    1: denied",
        ),
        (
            ServerlessError::CodeFileDelete("denied".to_string()),
            500,
            "unexpected error while trying to create code file\n\nCaused by:\n    0: failed to delete code file\n    1: denied",
        ),
    ];
    for (failure, status, body) in cases {
        let mut node = node();
        let (_, action) = with_code(&mut node, FACTORS, post("/", ""), Err(failure));
        let end = finish(action);
        assert_eq!(end.reply.status, status);
        assert_eq!(text(&end.reply.body), body);
        assert_eq!(node.pool.free_count(), 2);
    }
}

#[test]
fn served_request_is_billed_and_signed() {
    let mut node = node();
    let end = served(&mut node, FACTORS, post("/", "{\"num\":10}"), "2,5");
    let bill = node.ledger.inspect();
    assert_eq!(
        bill,
        vec![("0x9468bb6a8e85ed11e292c8cac0c1539df691c8d8ec62e7dbfa9f1bd7f504e46e".to_string(), 12u128)]
    );
    let again = served(&mut node, FACTORS, post("/", "{\"num\":10}"), "2,5");
    assert_eq!(node.ledger.inspect()[0].1, 24);
    assert_eq!(
        header(&end.reply, "X-Oyster-Signature"),
        header(&again.reply, "X-Oyster-Signature")
    );
    // The signature recovers to the node's key over the digest of the exchange.
    let input = signing_bytes(1700000000, b"POST", b"/", FACTORS.as_bytes(), b"{\"num\":10}", b"2,5");
    let mut hasher = tiny_keccak::Keccak::v256();
    tiny_keccak::Hasher::update(&mut hasher, &input);
    let mut digest = [0u8; 32];
    tiny_keccak::Hasher::finalize(hasher, &mut digest);
    let wire = hex::decode(header(&end.reply, "X-Oyster-Signature").unwrap()).unwrap();
    assert_eq!(wire.len(), 65);
    assert!(wire[64] == 27 || wire[64] == 28);
    let signature = k256::ecdsa::Signature::from_slice(&wire[..64]).unwrap();
    let recovery = k256::ecdsa::RecoveryId::from_byte(wire[64] - 27).unwrap();
    let recovered =
        k256::ecdsa::VerifyingKey::recover_from_prehash(&digest, &signature, recovery).unwrap();
    let key = k256::ecdsa::SigningKey::from_slice(&[7u8; 32]).unwrap();
    assert_eq!(&recovered, key.verifying_key());
}

#[test]
fn upstream_signing_headers_are_replaced() {
    let mut node = node();
    let mut session = to_proxy(&mut node, FACTORS, post("/", ""));
    let upstream = Reply {
        status: 302,
        headers: vec![
            Header { name: b"x-oyster-signature".to_vec(), value: b"forged".to_vec() },
            Header { name: b"location".to_vec(), value: b"/next".to_vec() },
        ],
        body: Vec::new(),
    };
    let action = session.step(
        &node.state,
        &mut node.pool,
        &mut node.ledger,
        Event::Proxied(ProxyOutcome::Answered { reply: upstream, timestamp: 5, millis: 1 }),
    );
    let end = cleaned(&mut node, &mut session, action);
    assert_eq!(end.reply.status, 302);
    let names: Vec<String> = end.reply.headers.iter().map(|h| text(&h.name)).collect();
    assert_eq!(names, vec!["location", "X-Oyster-Timestamp", "X-Oyster-Signature"]);
    assert_eq!(header(&end.reply, "X-Oyster-Timestamp").unwrap(), b"5");
}

#[test]
fn slot_stays_checked_out_until_the_sandbox_is_dead() {
    let mut node = node();
    let mut session = to_proxy(&mut node, FACTORS, post("/", ""));
    let slot = session.cgroup.clone().unwrap();
    let action = session.step(
        &node.state,
        &mut node.pool,
        &mut node.ledger,
        Event::Proxied(ProxyOutcome::TimedOut),
    );
    match action {
        Action::Teardown(cleanup) => {
            assert!(cleanup.kill_worker);
            assert!(cleanup.remove_config.is_some());
        }
        other => panic!("no cleanup asked for: {:?}", other),
    }
    // While the cleanup goes on the slot is not to be had.
    assert_eq!(node.pool.in_use_count(), 1);
    assert_eq!(node.pool.free(), &vec!["workerd_2".to_string()]);
    let (other, _) = with_code(&mut node, FACTORS, post("/", ""), Ok(()));
    assert_eq!(other.cgroup.as_deref(), Some("workerd_2"));
    let (_, refused) = with_code(&mut node, FACTORS, post("/", ""), Ok(()));
    assert_eq!(finish(refused).reply.status, 429);
    // Anything but the report that the cleanup is over asks for the kill again.
    let action =
        session.step(&node.state, &mut node.pool, &mut node.ledger, Event::Launched(Ok(())));
    match action {
        Action::Teardown(cleanup) => {
            assert!(cleanup.kill_worker);
            assert!(cleanup.remove_config.is_none());
        }
        other => panic!("no cleanup asked for: {:?}", other),
    }
    assert!(!node.pool.free().contains(&slot));
    let action = session.step(&node.state, &mut node.pool, &mut node.ledger, Event::TornDown);
    let end = finish(action);
    assert_eq!(end.reply.status, 408);
    assert_eq!(node.pool.free(), &vec![slot]);
    // The report is out of order for a request that is over.
    let action = session.step(&node.state, &mut node.pool, &mut node.ledger, Event::TornDown);
    assert_eq!(finish(action).reply.status, 500);
}
