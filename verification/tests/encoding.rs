use serverless::bytes::{append, contains, ends_with, equal, index_of, starts_with};
use serverless::cgroups::{get_cgroups, Cgroups, CgroupsError};
use serverless::encoding::{
    decimal_bytes, hex_decode_exact, parse_number, DecodeError, DecodeKind, HexError, NumberError,
};
use serverless::error::{report, report_error, ServerlessError};
use serverless::handler::{describe_decode_error, new_slug, refuse, route, slug_of, Refusal};
use serverless::model::{AppState, FunctionId};
use serverless::signing::{serialize_signature, sign_data, to_be_bytes};
use serverless::workerd::{
    code_path, config_path, decimal_string, execute, get_port, insert_header, names_match,
    signing_bytes, temp_path, upstream_url, wait_for_port, Header,
};

const LABEL: &str = "SRULW2UOQXWRDYUSZDFMBQKTTX3JDSGY5RROPW72T4N5P5IE4RXA";
const NAME: &str = "0x9468bb6a8e85ed11e292c8cac0c1539df691c8d8ec62e7dbfa9f1bd7f504e46e";

#[test]
fn label_and_name_spell_the_same_identifier() {
    let from_label = FunctionId::from_label(LABEL.as_bytes()).unwrap();
    assert_eq!(from_label.to_hex(), NAME);
    let from_name = FunctionId::from_hex(NAME).unwrap();
    assert!(from_label.same(&from_name));
    assert_eq!(from_label.as_bytes().len(), 32);
    assert_eq!(data_encoding::BASE32_NOPAD.encode(from_name.as_bytes()), LABEL);
    assert!(from_name.duplicate().same(&from_label));
}

#[test]
fn label_is_read_without_regard_to_case() {
    let mixed = "srulw2uoqxwrdyuszdfmbqkttx3jdsgy5RROPW72T4N5P5IE4RXA";
    assert_eq!(FunctionId::from_label(mixed.as_bytes()).unwrap().to_hex(), NAME);
}

#[test]
fn label_faults_are_told_apart() {
    let fault = |label: &str| FunctionId::from_label(label.as_bytes()).unwrap_err();
    assert_eq!(
        fault("SRULW2UOQXWRDYUSZDFMBQKTTX3JDSGY5RROPW72T4N5P5IE4RX0"),
        DecodeError { position: 51, kind: DecodeKind::Symbol }
    );
    assert_eq!(
        fault("SRULW2UOQXWRDYUSZDFMBQKTTX3JDSGY5RROPW72T4N5P5IE4RXB"),
        DecodeError { position: 51, kind: DecodeKind::Trailing }
    );
    assert_eq!(
        fault("SRULW2UOQXWRDYUSZDFMBQKTTX3JDSGY5RROPW72T4N5P5IE4R="),
        DecodeError { position: 50, kind: DecodeKind::Length }
    );
    assert_eq!(fault("A"), DecodeError { position: 0, kind: DecodeKind::Length });
    assert_eq!(fault("A!A"), DecodeError { position: 2, kind: DecodeKind::Length });
    assert_eq!(fault("A!"), DecodeError { position: 1, kind: DecodeKind::Symbol });
    assert_eq!(fault("AB"), DecodeError { position: 1, kind: DecodeKind::Trailing });
    assert_eq!(fault("AA"), DecodeError { position: 2, kind: DecodeKind::Length });
    assert_eq!(fault(""), DecodeError { position: 0, kind: DecodeKind::Length });
    let long = format!("{}AAAAAAAA", LABEL);
    assert_eq!(fault(&long), DecodeError { position: 52, kind: DecodeKind::Length });
    assert_eq!(
        String::from_utf8(describe_decode_error(&fault("AB"))).unwrap(),
        "DecodeError { position: 1, kind: Trailing }"
    );
}

#[test]
fn hexadecimal_name_must_be_canonical() {
    assert!(FunctionId::from_hex(NAME).is_some());
    assert!(FunctionId::from_hex(&NAME.to_uppercase()).is_none());
    assert!(FunctionId::from_hex(&NAME[2..]).is_none());
    assert!(FunctionId::from_hex(&NAME[..64]).is_none());
    assert!(FunctionId::from_hex(&format!("{}00", NAME)).is_none());
    assert!(FunctionId::from_hex(&NAME.replace('9', "g")).is_none());
    assert!(FunctionId::from_hex("0x").is_none());
    assert!(FunctionId::from_hex("").is_none());
}

#[test]
fn hex_decoding_checks_length_before_digits() {
    assert_eq!(hex_decode_exact(b"0aFf", 2).unwrap(), vec![0x0a, 0xff]);
    assert_eq!(hex_decode_exact(b"0aF", 2), Err(HexError::OddLength));
    assert_eq!(hex_decode_exact(b"zz", 2), Err(HexError::InvalidStringLength));
    assert_eq!(
        hex_decode_exact(b"0a z", 2),
        Err(HexError::InvalidHexCharacter { c: ' ', index: 2 })
    );
    assert_eq!(
        hex_decode_exact(&[b'0', 0xff], 1),
        Err(HexError::InvalidHexCharacter { c: '\u{ff}', index: 1 })
    );
}

#[test]
fn numbers_are_written_and_read_in_decimal() {
    assert_eq!(decimal_bytes(0), b"0");
    assert_eq!(decimal_bytes(11007), b"11007");
    assert_eq!(decimal_bytes(u64::MAX), b"18446744073709551615");
    assert_eq!(decimal_string(0), "0");
    assert_eq!(decimal_string(1700000000), "1700000000");
    assert_eq!(parse_number(b"0", 10), Ok(0));
    assert_eq!(parse_number(b"007", 10), Ok(7));
    assert_eq!(parse_number(b"+10", 10), Ok(10));
    assert_eq!(parse_number(b"11", 10), Err(NumberError::TooLarge));
    assert_eq!(parse_number(b"99999999999999999999999999", 10), Err(NumberError::TooLarge));
    assert_eq!(parse_number(b"", 10), Err(NumberError::Empty));
    assert_eq!(parse_number(b"+", 10), Err(NumberError::InvalidDigit));
    assert_eq!(parse_number(b"-1", 10), Err(NumberError::InvalidDigit));
    assert_eq!(parse_number(b"1+", 10), Err(NumberError::InvalidDigit));
    assert_eq!(parse_number(b"999999999999x", 10), Err(NumberError::InvalidDigit));
}

#[test]
fn port_lies_above_the_base_by_the_suffix() {
    assert_eq!(get_port("workerd_0").unwrap(), 11000);
    assert_eq!(get_port("workerd_12").unwrap(), 11012);
    assert_eq!(get_port("workerd_54535").unwrap(), 65535);
    assert!(matches!(get_port("workerd_54536"), Err(ServerlessError::BadPort(NumberError::TooLarge))));
    assert!(matches!(get_port("workerd_"), Err(ServerlessError::BadPort(NumberError::Empty))));
    assert!(matches!(get_port("worker"), Err(ServerlessError::BadPort(NumberError::Empty))));
    assert!(matches!(
        get_port("workerd_1a"),
        Err(ServerlessError::BadPort(NumberError::InvalidDigit))
    ));
    assert_eq!(get_port("12345678" ).is_err(), true);
    assert_eq!(get_port("abcdefgh9").unwrap(), 11009);
}

#[test]
fn byte_string_helpers_agree_with_slices() {
    assert!(starts_with(b"workerd_1", b"workerd_"));
    assert!(!starts_with(b"worker", b"workerd_"));
    assert!(starts_with(b"abc", b""));
    assert!(ends_with(b"0xab.js", b".js"));
    assert!(!ends_with(b"js", b".js"));
    assert!(equal(b"abc", b"abc"));
    assert!(!equal(b"abc", b"abd"));
    assert!(!equal(b"abc", b"ab"));
    assert!(contains(b"Uncaught SyntaxError: x", b"SyntaxError"));
    assert!(!contains(b"Uncaught TypeError: x", b"SyntaxError"));
    assert!(contains(b"abc", b""));
    assert!(!contains(b"ab", b"abc"));
    assert!(contains(b"aab", b"ab"));
    assert_eq!(index_of(b"a.b.c", b'.'), 1);
    assert_eq!(index_of(b"abc", b'.'), 3);
    let mut v = b"ab".to_vec();
    append(&mut v, b"cd");
    assert_eq!(v, b"abcd");
}

#[test]
fn report_numbers_causes_when_there_are_several() {
    assert_eq!(report("context", &Vec::new()), b"context");
    assert_eq!(report("context", &vec![b"why".to_vec()]), b"context\n\nCaused by:\n    why");
    let many: Vec<Vec<u8>> = (0..11).map(|i| format!("cause {}", i).into_bytes()).collect();
    let text = String::from_utf8(report("context", &many)).unwrap();
    assert!(text.starts_with("context\n\nCaused by:\n    0: cause 0\n    1: cause 1\n"));
    assert!(text.ends_with("\n    9: cause 9\n   10: cause 10"));
    let e = ServerlessError::BadCalldata(HexError::InvalidHexCharacter { c: '\'', index: 12 });
    assert_eq!(
        String::from_utf8(report_error("failed to create code file", &e)).unwrap(),
        "failed to create code file\n\nCaused by:\n    0: calldata is not a valid hex string\n    1: Invalid character '\\'' at position 12"
    );
    assert_eq!(
        report("context", &vec![b"first\nsecond\n".to_vec()]),
        b"context\n\nCaused by:\n    first\n    second\n    "
    );
    assert_eq!(
        String::from_utf8(report("context", &vec![b"a\nb".to_vec(), b"c\n\nd".to_vec()])).unwrap(),
        "context\n\nCaused by:\n    0: a\n       b\n    1: c\n       \n       d"
    );
    let e = ServerlessError::Execute(CgroupsError::NoFree);
    assert_eq!(
        e.chain(),
        vec![b"failed to execute workerd".to_vec(), b"no free cgroups left".to_vec()]
    );
}

#[test]
fn paths_and_command_are_put_together() {
    assert_eq!(code_path("./runtime/", "0xab"), "./runtime//0xab.js");
    assert_eq!(temp_path("/r", "0xab"), "/r/temp-0xab.js");
    assert_eq!(config_path("/r", "0xab", "01020304"), "/r/0xab-01020304.capnp");
    assert_eq!(
        execute("0xab", "01020304", "/r", "workerd_3"),
        vec![
            "cgexec",
            "-g",
            "memory,cpu:workerd_3",
            "/r/workerd",
            "serve",
            "/r/0xab-01020304.capnp",
            "--verbose"
        ]
    );
    assert_eq!(
        Cgroups::execute("workerd_9", vec!["true".to_string()]),
        vec!["cgexec", "-g", "memory,cpu:workerd_9", "true"]
    );
    assert_eq!(upstream_url(11003, "/"), "http://127.0.0.1:11003/");
    assert_eq!(upstream_url(11003, "/a/b?c=d"), "http://127.0.0.1:11003/a/b?c=d");
    assert_eq!(upstream_url(65535, ""), "http://127.0.0.1:65535/");
    assert_eq!(upstream_url(11000, "*"), "http://127.0.0.1:11000/");
}

#[test]
fn port_is_tried_for_one_second() {
    assert!(wait_for_port(0));
    assert!(wait_for_port(999));
    assert!(!wait_for_port(1000));
    assert!(!wait_for_port(u64::MAX));
}

#[test]
fn signing_input_is_labelled_fields_in_order() {
    let input = signing_bytes(0x0102030405060708, b"GET", b"/a?b=1", b"h.oyster.run", b"in", b"out");
    let mut expected = b"|oyster-serverless-hasher||timestamp|".to_vec();
    expected.extend_from_slice(&[1, 2, 3, 4, 5, 6, 7, 8]);
    expected.extend_from_slice(b"|request||method|GET|pathandquery|/a?b=1|host|h.oyster.run|body|in|response||body|out");
    assert_eq!(input, expected);
    assert_eq!(to_be_bytes(0x01020304, 4), vec![1, 2, 3, 4]);
    assert_eq!(to_be_bytes(0x01020304, 2), vec![3, 4]);
    assert_eq!(to_be_bytes(7, 0), Vec::<u8>::new());
    assert_eq!(to_be_bytes(u128::MAX, 16), vec![0xff; 16]);
}

#[test]
fn signature_is_r_s_and_shifted_recovery_id() {
    let rs: Vec<u8> = (0u8..64).collect();
    let text = serialize_signature(&rs, 1);
    assert_eq!(text, format!("{}1c", hex::encode(&rs)));
    assert_eq!(serialize_signature(&rs, 0).len(), 130);
}

#[test]
fn signing_is_repeatable_and_depends_on_key_and_data() {
    let a = sign_data(b"payload", &[7u8; 32]).unwrap();
    assert_eq!(a, sign_data(b"payload", &[7u8; 32]).unwrap());
    assert_ne!(a, sign_data(b"payload", &[8u8; 32]).unwrap());
    assert_ne!(a, sign_data(b"payloae", &[7u8; 32]).unwrap());
    assert!(sign_data(b"payload", &[0u8; 32]).is_err());
    assert!(sign_data(b"payload", &[0xffu8; 32]).is_err());
    assert!(sign_data(b"payload", &[1u8; 33]).is_err());
    // The empty message hashes to the known digest, which the signature covers.
    let digest = hex::decode("c5d2460186f7233c927e7db2dcc703c0e500b653ca82273b7bfad8045d85a470").unwrap();
    let wire = hex::decode(sign_data(b"", &[7u8; 32]).unwrap()).unwrap();
    let signature = k256::ecdsa::Signature::from_slice(&wire[..64]).unwrap();
    let recovery = k256::ecdsa::RecoveryId::from_byte(wire[64] - 27).unwrap();
    let recovered =
        k256::ecdsa::VerifyingKey::recover_from_prehash(&digest, &signature, recovery).unwrap();
    assert_eq!(&recovered, k256::ecdsa::SigningKey::from_slice(&[7u8; 32]).unwrap().verifying_key());
}

#[test]
fn settings_need_a_signing_key() {
    let make = |key: Vec<u8>| AppState::new("r".to_string(), "rpc".to_string(), "0x".to_string(), key);
    let state = make(vec![1u8; 32]).unwrap();
    assert_eq!(state.runtime_path, "r");
    assert_eq!(state.signer, vec![1u8; 32]);
    assert!(make(vec![0u8; 32]).is_none());
    assert!(make(Vec::new()).is_none());
    assert!(make(vec![1u8; 40]).is_none());
    assert!(make(vec![1u8; 33]).is_none());
    assert!(make(vec![1u8; 23]).is_none());
    assert!(make(vec![1u8; 24]).is_some());
    assert!(make(vec![0u8; 24]).is_none());
    let order = hex::decode("fffffffffffffffffffffffffffffffebaaedce6af48a03bbfd25e8cd0364141").unwrap();
    assert!(make(order.clone()).is_none());
    let mut below = order.clone();
    below[31] -= 1;
    assert!(make(below).is_some());
    let mut above = order;
    above[31] += 1;
    assert!(make(above).is_none());
    let mut one = vec![0u8; 32];
    one[31] = 1;
    assert!(make(one).is_some());
}

#[test]
fn slug_is_eight_hexadecimal_digits() {
    assert_eq!(slug_of(0x0a0b0c0d), "0a0b0c0d");
    assert_eq!(slug_of(0), "00000000");
    let slug = new_slug();
    assert_eq!(slug.len(), 8);
    assert!(slug.bytes().all(|b| b.is_ascii_digit() || (b'a'..=b'f').contains(&b)));
}

#[test]
fn header_names_match_without_regard_to_case() {
    assert!(names_match(b"X-Oyster-Signature", b"x-oyster-signature"));
    assert!(!names_match(b"X-Oyster-Signature", b"x-oyster-signatur"));
    assert!(!names_match(b"[", b"{"));
    let headers = vec![
        Header { name: b"a".to_vec(), value: b"1".to_vec() },
        Header { name: b"B".to_vec(), value: b"2".to_vec() },
        Header { name: b"A".to_vec(), value: b"3".to_vec() },
    ];
    let out = insert_header(&headers, b"a", b"4");
    let pairs: Vec<(&[u8], &[u8])> = out.iter().map(|h| (h.name.as_slice(), h.value.as_slice())).collect();
    assert_eq!(pairs, vec![(&b"B"[..], &b"2"[..]), (&b"a"[..], &b"4"[..])]);
}

#[test]
fn routes_follow_the_first_label() {
    assert_eq!(route(false, None).unwrap_err(), Refusal::Gone);
    assert_eq!(route(false, Some(LABEL.as_bytes())).unwrap_err(), Refusal::Gone);
    assert_eq!(route(true, None).unwrap_err(), Refusal::NoHost);
    assert_eq!(route(true, Some(b"unregister")).unwrap_err(), Refusal::Unregister);
    assert_eq!(route(true, Some(b"unregister.oyster.run")).unwrap_err(), Refusal::Unregister);
    assert!(matches!(route(true, Some(b"Unregister.oyster.run")), Err(Refusal::BadLabel(_))));
    assert_eq!(route(true, Some(b"\x7f.oyster.run")).unwrap_err(), Refusal::BadHost);
    assert_eq!(
        route(true, Some(b".oyster.run")).unwrap_err(),
        Refusal::BadLabel(DecodeError { position: 0, kind: DecodeKind::Length })
    );
    let host = format!("{}.oyster.run:6001", LABEL);
    assert_eq!(route(true, Some(host.as_bytes())).unwrap().to_hex(), NAME);
    let reply = refuse(&Refusal::Gone);
    assert_eq!(reply.status, 410);
    assert!(reply.headers.is_empty());
    assert_eq!(reply.body, b"worker unregistered");
}

#[test]
fn pool_schedule_keeps_every_slot() {
    let listing = vec!["workerd_1", "cpu", "workerd_2", "workerd", "workerd_3", "workerd_1"];
    let kept = get_cgroups(listing.iter().map(|s| s.to_string()).collect());
    assert_eq!(kept, vec!["workerd_1", "workerd_2", "workerd_3"]);
    let mut pool = Cgroups::new(Ok(listing.iter().map(|s| s.to_string()).collect())).unwrap();
    let total = |p: &Cgroups| p.free_count() + p.in_use_count();
    let a = pool.reserve().unwrap();
    assert_eq!(a, "workerd_1");
    assert_eq!(pool.free(), &vec!["workerd_3".to_string(), "workerd_2".to_string()]);
    let b = pool.reserve().unwrap();
    assert_eq!(b, "workerd_3");
    assert_eq!(total(&pool), 3);
    pool.release(a.clone());
    pool.release(a);
    pool.release("workerd_77".to_string());
    assert_eq!(total(&pool), 3);
    assert_eq!(pool.free(), &vec!["workerd_2".to_string(), "workerd_1".to_string()]);
    pool.release(b);
    assert_eq!(pool.in_use_count(), 0);
    assert_eq!(pool.capacity(), 3);
}

#[test]
fn every_name_with_the_prefix_is_a_slot() {
    let listing = vec!["workerd_abc", "workerd_1", "workerd_01", "workerd_", "workerd_99999", "Workerd_2"];
    let kept = get_cgroups(listing.iter().map(|s| s.to_string()).collect());
    assert_eq!(kept, vec!["workerd_abc", "workerd_1", "workerd_01", "workerd_", "workerd_99999"]);
    let pool = Cgroups::new(Ok(vec!["workerd_abc".to_string()])).unwrap();
    assert_eq!(pool.capacity(), 1);
}

#[test]
fn pool_needs_a_listing_with_slots() {
    assert!(matches!(Cgroups::new(Ok(vec!["cpu".to_string()])), Err(CgroupsError::NoFree)));
    assert!(matches!(Cgroups::new(Ok(vec!["workerd".to_string()])), Err(CgroupsError::NoFree)));
    assert!(matches!(Cgroups::new(Ok(Vec::new())), Err(CgroupsError::NoFree)));
    assert!(matches!(
        Cgroups::new(Err("permission denied".to_string())),
        Err(CgroupsError::Fetch(cause)) if cause == "permission denied"
    ));
}
