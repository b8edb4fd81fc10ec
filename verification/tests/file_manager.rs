use serverless::encoding::HexError;
use serverless::error::ServerlessError;
use serverless::file_manager::{
    check_transaction, cleanup_config_file, create_code_file, create_config_file,
    decode_call_data, delete_oldest_code_file, get_number_of_code_files, get_transaction_data,
    CodeEvent, CodeStage, CodeStep, CreateOutcome, DirEntry, RemoveOutcome, StoreOutcome,
    Transaction,
};
use serverless::model::FunctionId;

const CONTRACT: &str = "0x44fe06d2940b8782a0a9a9ffd09c65852c0156b1";
const NAME: &str = "0x9468bb6a8e85ed11e292c8cac0c1539df691c8d8ec62e7dbfa9f1bd7f504e46e";

fn entry(name: &str, is_file: bool, modified: u128) -> DirEntry {
    DirEntry { name: name.to_string(), is_file, modified }
}

fn calldata(code: &[u8], padding: usize) -> String {
    format!("0x{}{}{}", "ab".repeat(68), hex::encode(code), "00".repeat(padding))
}

/// The failure of a job that had no temporary file of its own.
fn failure(step: CodeStep) -> ServerlessError {
    match step {
        CodeStep::Finish(Err(e)) => e,
        other => panic!("the job goes on: {:?}", other),
    }
}

/// The failure of a job that asks for the removal of its temporary file.
fn abandoned(step: CodeStep) -> ServerlessError {
    match step {
        CodeStep::Abandon(e) => e,
        other => panic!("no removal asked for: {:?}", other),
    }
}

#[test]
fn code_is_calldata_behind_the_head_without_padding() {
    let input = calldata(b"export default {}", 15);
    assert_eq!(input.len(), 138 + 2 * (17 + 15));
    assert_eq!(decode_call_data(&input).unwrap(), b"export default {}");
}

#[test]
fn code_keeps_zero_bytes_that_are_not_at_the_end() {
    assert_eq!(decode_call_data(&calldata(&[0, 1, 0, 2], 3)).unwrap(), vec![0, 1, 0, 2]);
}

#[test]
fn calldata_of_zeros_only_is_empty_code() {
    assert_eq!(decode_call_data(&calldata(&[], 32)).unwrap(), Vec::<u8>::new());
    assert_eq!(decode_call_data(&calldata(&[], 0)).unwrap(), Vec::<u8>::new());
}

#[test]
fn bad_calldata_is_refused() {
    let short = "0x1234";
    assert!(matches!(
        decode_call_data(short),
        Err(ServerlessError::BadCalldata(HexError::InvalidStringLength))
    ));
    let odd = format!("{}0", calldata(b"a", 0));
    assert!(matches!(
        decode_call_data(&odd),
        Err(ServerlessError::BadCalldata(HexError::OddLength))
    ));
    let not_hex = format!("{}0g", calldata(b"a", 0));
    assert!(matches!(
        decode_call_data(&not_hex),
        Err(ServerlessError::BadCalldata(HexError::InvalidHexCharacter { c: 'g', index: 3 }))
    ));
    let mixed_case = format!("0x{}4A4b", "ab".repeat(68));
    assert_eq!(decode_call_data(&mixed_case).unwrap(), b"JK");
}

#[test]
fn transaction_checks_come_in_order() {
    let contract = CONTRACT.to_string();
    assert!(matches!(check_transaction(None, &contract), Err(ServerlessError::TxNotFound)));
    let no_to = Transaction { to: None, input: None };
    assert!(matches!(check_transaction(Some(no_to), &contract), Err(ServerlessError::InvalidTxToType)));
    let other = Transaction { to: Some("0x00".to_string()), input: None };
    match check_transaction(Some(other), &contract) {
        Err(ServerlessError::InvalidTxToValue(found, expected)) => {
            assert_eq!(found, "0x00");
            assert_eq!(expected, CONTRACT);
        },
        other => panic!("accepted: {:?}", other),
    }
    let no_input = Transaction { to: Some(contract.clone()), input: None };
    assert!(matches!(
        check_transaction(Some(no_input), &contract),
        Err(ServerlessError::InvalidTxCalldataType)
    ));
    let good = Transaction { to: Some(contract.clone()), input: Some(calldata(b"js", 30)) };
    assert_eq!(check_transaction(Some(good), &contract).unwrap(), b"js");
}

#[test]
fn code_files_are_counted_by_name_and_kind() {
    let entries = vec![
        entry("0xaa.js", true, 5),
        entry("workerd", true, 1),
        entry("temp-0xaa.js", true, 2),
        entry("0xbb-01020304.capnp", true, 3),
        entry("0xcc.js", false, 4),
        entry("0x.js", true, 9),
        entry("0xdd.jsx", true, 9),
    ];
    assert_eq!(get_number_of_code_files(&entries), 2);
    assert_eq!(delete_oldest_code_file(&entries), Some(0));
    assert_eq!(delete_oldest_code_file(&entries[1..5].iter().map(|e| entry(&e.name, e.is_file, e.modified)).collect()), None);
}

#[test]
fn oldest_code_file_is_first_among_equals() {
    let entries = vec![
        entry("0x01.js", true, 30),
        entry("0x02.js", true, 10),
        entry("0x03.js", true, 10),
        entry("notes.txt", true, 1),
    ];
    assert_eq!(delete_oldest_code_file(&entries), Some(1));
}

#[test]
fn cached_code_is_touched_and_nothing_else() {
    let (mut job, step) = create_code_file(NAME, "/srv/runtime", "http://rpc", CONTRACT);
    assert!(matches!(step, CodeStep::ProbeCode));
    assert_eq!(job.code_path(), format!("/srv/runtime/{}.js", NAME));
    assert_eq!(job.temp_path(), format!("/srv/runtime/temp-{}.js", NAME));
    assert!(matches!(job.step(CodeEvent::Probed(true)), CodeStep::TouchCode));
    assert!(matches!(job.step(CodeEvent::Touched(Ok(()))), CodeStep::Finish(Ok(()))));
    assert_eq!(job.stage, CodeStage::Done);
}

#[test]
fn touch_failure_is_reported() {
    let (mut job, _) = create_code_file(NAME, "/srv/runtime", "http://rpc", CONTRACT);
    job.step(CodeEvent::Probed(true));
    let e = failure(job.step(CodeEvent::Touched(Err("read-only".to_string()))));
    assert!(matches!(e, ServerlessError::UpdateModifiedTime(cause) if cause == "read-only"));
}

#[test]
fn full_cache_evicts_its_oldest_file_first() {
    let mut entries: Vec<DirEntry> =
        (0..40).map(|i| entry(&format!("0x{:02}.js", i), true, 1000 - i as u128)).collect();
    entries.push(entry("workerd", true, 0));
    let (mut job, _) = create_code_file(NAME, "/srv/runtime", "http://rpc", CONTRACT);
    job.step(CodeEvent::Probed(false));
    match job.step(CodeEvent::Listed(Ok(entries))) {
        CodeStep::Evict(name) => {
            assert_eq!(name, "0x39.js");
            assert_eq!(job.entry_path(&name), "/srv/runtime/0x39.js");
        },
        other => panic!("no eviction: {:?}", other),
    }
    assert!(matches!(job.step(CodeEvent::Removed(RemoveOutcome::NotFound)), CodeStep::CreateTemp));
}

#[test]
fn cache_below_its_bound_evicts_nothing() {
    let entries: Vec<DirEntry> =
        (0..39).map(|i| entry(&format!("0x{:02}.js", i), true, i as u128)).collect();
    let (mut job, _) = create_code_file(NAME, "/srv/runtime", "http://rpc", CONTRACT);
    job.step(CodeEvent::Probed(false));
    assert!(matches!(job.step(CodeEvent::Listed(Ok(entries))), CodeStep::CreateTemp));
}

#[test]
fn eviction_failure_is_reported() {
    let entries: Vec<DirEntry> =
        (0..41).map(|i| entry(&format!("0x{:02}.js", i), true, i as u128)).collect();
    let (mut job, _) = create_code_file(NAME, "/srv/runtime", "http://rpc", CONTRACT);
    job.step(CodeEvent::Probed(false));
    assert!(matches!(job.step(CodeEvent::Listed(Ok(entries))), CodeStep::Evict(name) if name == "0x00.js"));
    let e = failure(job.step(CodeEvent::Removed(RemoveOutcome::Failed("busy".to_string()))));
    assert!(matches!(e, ServerlessError::CodeFileDelete(cause) if cause == "busy"));
}

#[test]
fn listing_failure_is_reported() {
    let (mut job, _) = create_code_file(NAME, "/srv/runtime", "http://rpc", CONTRACT);
    job.step(CodeEvent::Probed(false));
    let e = failure(job.step(CodeEvent::Listed(Err("gone".to_string()))));
    assert!(matches!(e, ServerlessError::CodeFileCreate(cause) if cause == "gone"));
}

#[test]
fn fresh_code_is_fetched_checked_and_stored() {
    let (mut job, _) = create_code_file(NAME, "/srv/runtime", "http://rpc", CONTRACT);
    job.step(CodeEvent::Probed(false));
    job.step(CodeEvent::Listed(Ok(Vec::new())));
    assert!(matches!(
        job.step(CodeEvent::Created(CreateOutcome::Created)),
        CodeStep::FetchTransaction
    ));
    let tx = Transaction { to: Some(CONTRACT.to_string()), input: Some(calldata(b"code", 28)) };
    assert!(matches!(job.step(CodeEvent::Fetched(Ok(Some(tx)))), CodeStep::Store));
    assert_eq!(job.code, b"code");
    assert!(matches!(job.step(CodeEvent::Stored(StoreOutcome::Stored)), CodeStep::Finish(Ok(()))));
}

#[test]
fn fetch_and_store_failures_remove_the_temporary_file() {
    let start = || {
        let (mut job, _) = create_code_file(NAME, "/srv/runtime", "http://rpc", CONTRACT);
        job.step(CodeEvent::Probed(false));
        job.step(CodeEvent::Listed(Ok(Vec::new())));
        job.step(CodeEvent::Created(CreateOutcome::Created));
        job
    };
    let mut job = start();
    let e = abandoned(job.step(CodeEvent::Fetched(Err("dns".to_string()))));
    assert!(matches!(e, ServerlessError::CalldataRetrieve(cause) if cause == "dns"));
    assert_eq!(job.stage, CodeStage::Done);
    let e = abandoned(start().step(CodeEvent::Fetched(Ok(None))));
    assert!(matches!(e, ServerlessError::TxNotFound));
    let tx = || Transaction { to: Some(CONTRACT.to_string()), input: Some(calldata(b"code", 0)) };
    let mut job = start();
    job.step(CodeEvent::Fetched(Ok(Some(tx()))));
    let e = abandoned(job.step(CodeEvent::Stored(StoreOutcome::WriteFailed("full".to_string()))));
    assert!(matches!(e, ServerlessError::CodeFileCreate(cause) if cause == "full"));
    let mut job = start();
    job.step(CodeEvent::Fetched(Ok(Some(tx()))));
    let e = abandoned(job.step(CodeEvent::Stored(StoreOutcome::RenameFailed("cross".to_string()))));
    assert!(matches!(e, ServerlessError::CodeFileCreate(cause) if cause == "cross"));
    let mut job = start();
    let bad = Transaction { to: Some(CONTRACT.to_string()), input: Some(format!("{}zz", calldata(b"", 0))) };
    let e = abandoned(job.step(CodeEvent::Fetched(Ok(Some(bad)))));
    assert!(matches!(
        e,
        ServerlessError::BadCalldata(HexError::InvalidHexCharacter { c: 'z', index: 0 })
    ));
    // An event out of order ends the owner of the file in the same way.
    let e = abandoned(start().step(CodeEvent::Probed(true)));
    assert!(matches!(e, ServerlessError::CodeFileCreate(cause) if cause == "event out of order"));
}

#[test]
fn losing_the_race_waits_for_the_winner() {
    let (mut job, _) = create_code_file(NAME, "/srv/runtime", "http://rpc", CONTRACT);
    job.step(CodeEvent::Probed(false));
    job.step(CodeEvent::Listed(Ok(Vec::new())));
    assert!(matches!(
        job.step(CodeEvent::Created(CreateOutcome::Exists("File exists (os error 17)".to_string()))),
        CodeStep::Pause
    ));
    assert!(matches!(job.step(CodeEvent::Probed(false)), CodeStep::Pause));
    assert!(matches!(job.step(CodeEvent::Probed(true)), CodeStep::Finish(Ok(()))));
}

#[test]
fn waiting_gives_up_after_thirty_looks() {
    let (mut job, _) = create_code_file(NAME, "/srv/runtime", "http://rpc", CONTRACT);
    job.step(CodeEvent::Probed(false));
    job.step(CodeEvent::Listed(Ok(Vec::new())));
    job.step(CodeEvent::Created(CreateOutcome::Exists("File exists (os error 17)".to_string())));
    for _ in 0..29 {
        assert!(matches!(job.step(CodeEvent::Probed(false)), CodeStep::Pause));
    }
    let e = failure(job.step(CodeEvent::Probed(false)));
    assert!(matches!(e, ServerlessError::CodeFileCreate(cause) if cause == "File exists (os error 17)"));
}

#[test]
fn creation_failure_is_reported_at_once() {
    let (mut job, _) = create_code_file(NAME, "/srv/runtime", "http://rpc", CONTRACT);
    job.step(CodeEvent::Probed(false));
    job.step(CodeEvent::Listed(Ok(Vec::new())));
    let e = failure(job.step(CodeEvent::Created(CreateOutcome::Failed("denied".to_string()))));
    assert!(matches!(e, ServerlessError::CodeFileCreate(cause) if cause == "denied"));
}

#[test]
fn code_event_out_of_order_ends_the_job() {
    let (mut job, _) = create_code_file(NAME, "/srv/runtime", "http://rpc", CONTRACT);
    let e = failure(job.step(CodeEvent::Stored(StoreOutcome::Stored)));
    assert!(matches!(e, ServerlessError::CodeFileCreate(cause) if cause == "event out of order"));
    assert_eq!(job.stage, CodeStage::Done);
    let e = failure(job.step(CodeEvent::Probed(true)));
    assert!(matches!(e, ServerlessError::CodeFileCreate(_)));
}

#[test]
fn config_names_module_and_port() {
    let file = create_config_file("0xabc", "01020304", "/srv/runtime", 11007);
    assert_eq!(file.path, "/srv/runtime/0xabc-01020304.capnp");
    let expected = "using Workerd = import \"/workerd/workerd.capnp\";
const oysterConfig :Workerd.Config = (
  services = [ (name = \"main\", worker = .oysterWorker) ],
  sockets = [ ( name = \"http\", address = \"*:11007\", http = (), service = \"main\" ) ]
);
const oysterWorker :Workerd.Worker = (
  modules = [ (name = \"main\", esModule = embed \"0xabc.js\") ],
  compatibilityDate = \"2023-03-07\",
);";
    assert_eq!(String::from_utf8(file.contents).unwrap(), expected);
    assert_eq!(cleanup_config_file("0xabc", "01020304", "/srv/runtime"), file.path);
}

#[test]
fn transaction_request_names_the_hash() {
    let id = FunctionId::from_hex(NAME).unwrap();
    let body = get_transaction_data(&id);
    let parsed: serde_json::Value = serde_json::from_slice(&body).unwrap();
    assert_eq!(parsed["jsonrpc"], "2.0");
    assert_eq!(parsed["method"], "eth_getTransactionByHash");
    assert_eq!(parsed["params"][0], NAME);
    assert_eq!(parsed["params"].as_array().unwrap().len(), 1);
    assert_eq!(parsed["id"], 1);
}
