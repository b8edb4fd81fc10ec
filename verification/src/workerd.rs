//! The sandbox: its port, its command line, and the signed envelope around
//! what it answers.

use crate::bytes::append;
use crate::cgroups::Cgroups;
use crate::encoding::{hex_lower_is_plain, parse_number, parsed_number, NumberError};
use crate::error::{owned, ServerlessError};
use crate::signing::{
    be_bytes, ecdsa_signature, keccak256, sign_data, signature_wire, signed_hex, to_be_bytes,
    SigningError, SIGNATURE_DIGITS,
};
use vstd::prelude::*;
use vstd::slice::slice_subrange;
use vstd::string::{StringExecFns, StringSliceAdditionalSpecFns};
use vstd::utf8::encode_utf8;

verus! {

/// The first port of the range that the slots share.
pub const PORT_BASE: u16 = 11000;

/// The number of bytes of a slot's name that stand before its number.
pub const SLOT_PREFIX_BYTES: usize = 8;

/// The port that a slot's name reserves: what follows the first eight bytes
/// of the name is a decimal number, and the port lies that far above the
/// base. A name that gives no port below 65536 is refused.
pub open spec fn port_of(name: Seq<u8>) -> Result<u16, NumberError> {
    if name.len() < SLOT_PREFIX_BYTES {
        Err(NumberError::Empty)
    } else {
        match parsed_number(
            name.subrange(SLOT_PREFIX_BYTES as int, name.len() as int),
            (u16::MAX - PORT_BASE) as nat,
        ) {
            Ok(n) => Ok((n + PORT_BASE) as u16),
            Err(e) => Err(e),
        }
    }
}

/// The port that the slot `cgroup` reserves.
pub fn get_port(cgroup: &str) -> (res: Result<u16, ServerlessError>)
    ensures
        match port_of(cgroup.spec_bytes()) {
            Ok(port) => res == Ok::<u16, ServerlessError>(port),
            Err(e) => res == Err::<u16, ServerlessError>(ServerlessError::BadPort(e)),
        },
{
    let name = cgroup.as_bytes();
    if name.len() < SLOT_PREFIX_BYTES {
        return Err(ServerlessError::BadPort(NumberError::Empty));
    }
    let limit: u32 = (u16::MAX - PORT_BASE) as u32;
    match parse_number(slice_subrange(name, SLOT_PREFIX_BYTES, name.len()), limit) {
        Ok(n) => Ok(n as u16 + PORT_BASE),
        Err(e) => Err(ServerlessError::BadPort(e)),
    }
}

/// One decimal digit as a text.
pub fn digit_text(d: u8) -> (text: &'static str)
    requires
        d < 10,
    ensures
        text@ == seq![(48 + d) as char],
{
    proof {
        reveal_strlit("0");
        reveal_strlit("1");
        reveal_strlit("2");
        reveal_strlit("3");
        reveal_strlit("4");
        reveal_strlit("5");
        reveal_strlit("6");
        reveal_strlit("7");
        reveal_strlit("8");
        reveal_strlit("9");
    }
    let text = if d == 0 {
        "0"
    } else if d == 1 {
        "1"
    } else if d == 2 {
        "2"
    } else if d == 3 {
        "3"
    } else if d == 4 {
        "4"
    } else if d == 5 {
        "5"
    } else if d == 6 {
        "6"
    } else if d == 7 {
        "7"
    } else if d == 8 {
        "8"
    } else {
        "9"
    };
    assert(text@ =~= seq![(48 + d) as char]);
    text
}

/// The decimal text of `n`, without leading zeros.
pub open spec fn decimal_text(n: nat) -> Seq<char>
    decreases n,
{
    if n < 10 {
        seq![(48 + n) as char]
    } else {
        decimal_text(n / 10) + seq![(48 + n % 10) as char]
    }
}

/// Writes `n` in decimal.
pub fn decimal_string(n: u64) -> (text: String)
    ensures
        text@ == decimal_text(n as nat),
    decreases n,
{
    if n < 10 {
        String::from_str(digit_text(n as u8))
    } else {
        let mut text = decimal_string(n / 10);
        text.append(digit_text((n % 10) as u8));
        text
    }
}

/// Where the code of a function is kept.
pub open spec fn code_path_spec(runtime: Seq<char>, tx_hash: Seq<char>) -> Seq<char> {
    runtime + "/"@ + tx_hash + ".js"@
}

/// Where the code of a function is written before it is complete.
pub open spec fn temp_path_spec(runtime: Seq<char>, tx_hash: Seq<char>) -> Seq<char> {
    runtime + "/temp-"@ + tx_hash + ".js"@
}

/// Where the config of one request is kept.
pub open spec fn config_path_spec(runtime: Seq<char>, tx_hash: Seq<char>, slug: Seq<char>) -> Seq<
    char,
> {
    runtime + "/"@ + tx_hash + "-"@ + slug + ".capnp"@
}

/// Where the code of the function `tx_hash` is kept.
pub fn code_path(workerd_runtime_path: &str, tx_hash: &str) -> (path: String)
    ensures
        path@ == code_path_spec(workerd_runtime_path@, tx_hash@),
{
    let mut path = String::from_str(workerd_runtime_path);
    path.append("/");
    path.append(tx_hash);
    path.append(".js");
    path
}

/// Where the code of the function `tx_hash` is written before it is complete.
pub fn temp_path(workerd_runtime_path: &str, tx_hash: &str) -> (path: String)
    ensures
        path@ == temp_path_spec(workerd_runtime_path@, tx_hash@),
{
    let mut path = String::from_str(workerd_runtime_path);
    path.append("/temp-");
    path.append(tx_hash);
    path.append(".js");
    path
}

/// Where the config of the request `slug` for the function `tx_hash` is kept.
pub fn config_path(workerd_runtime_path: &str, tx_hash: &str, slug: &str) -> (path: String)
    ensures
        path@ == config_path_spec(workerd_runtime_path@, tx_hash@, slug@),
{
    let mut path = String::from_str(workerd_runtime_path);
    path.append("/");
    path.append(tx_hash);
    path.append("-");
    path.append(slug);
    path.append(".capnp");
    path
}

impl Cgroups {
    /// The command that runs `args` inside the slot `cgroup`, the program
    /// first: the slot bounds memory and processor time.
    pub fn execute(cgroup: &str, args: Vec<String>) -> (command: Vec<String>)
        ensures
            crate::cgroups::names(command@) == seq![
                "cgexec"@,
                "-g"@,
                "memory,cpu:"@ + cgroup@,
            ] + crate::cgroups::names(args@),
    {
        let mut command: Vec<String> = Vec::new();
        command.push(String::from_str("cgexec"));
        command.push(String::from_str("-g"));
        let mut group = String::from_str("memory,cpu:");
        group.append(cgroup);
        command.push(group);
        let ghost head = command@;
        let mut i: usize = 0;
        while i < args.len()
            invariant
                i <= args.len(),
                crate::cgroups::names(command@) == crate::cgroups::names(head)
                    + crate::cgroups::names(args@).subrange(0, i as int),
            decreases args.len() - i,
        {
            let arg = args[i].clone();
            let ghost before = crate::cgroups::names(command@);
            command.push(arg);
            assert(crate::cgroups::names(command@) =~= before.push(args@[i as int]@));
            assert(crate::cgroups::names(args@).subrange(0, i + 1) =~= crate::cgroups::names(
                args@,
            ).subrange(0, i as int).push(args@[i as int]@));
            i += 1;
        }
        assert(crate::cgroups::names(args@).subrange(0, i as int) =~= crate::cgroups::names(args@));
        assert(crate::cgroups::names(head) =~= seq!["cgexec"@, "-g"@, "memory,cpu:"@ + cgroup@]);
        command
    }
}

/// The command that serves the request `slug` for the function `tx_hash` in
/// the slot `cgroup`, the program first.
pub fn execute(tx_hash: &str, slug: &str, workerd_runtime_path: &str, cgroup: &str) -> (command:
    Vec<String>)
    ensures
        crate::cgroups::names(command@) == seq![
            "cgexec"@,
            "-g"@,
            "memory,cpu:"@ + cgroup@,
            workerd_runtime_path@ + "/workerd"@,
            "serve"@,
            config_path_spec(workerd_runtime_path@, tx_hash@, slug@),
            "--verbose"@,
        ],
{
    let mut args: Vec<String> = Vec::new();
    let mut binary = String::from_str(workerd_runtime_path);
    binary.append("/workerd");
    args.push(binary);
    args.push(String::from_str("serve"));
    args.push(config_path(workerd_runtime_path, tx_hash, slug));
    args.push(String::from_str("--verbose"));
    assert(crate::cgroups::names(args@) =~= seq![
        workerd_runtime_path@ + "/workerd"@,
        "serve"@,
        config_path_spec(workerd_runtime_path@, tx_hash@, slug@),
        "--verbose"@,
    ]);
    let command = Cgroups::execute(cgroup, args);
    assert(crate::cgroups::names(command@) =~= seq![
        "cgexec"@,
        "-g"@,
        "memory,cpu:"@ + cgroup@,
        workerd_runtime_path@ + "/workerd"@,
        "serve"@,
        config_path_spec(workerd_runtime_path@, tx_hash@, slug@),
        "--verbose"@,
    ]);
    command
}

/// The path of a request as it is sent on: the path and query as they came,
/// or `/` where they do not begin with a slash.
pub open spec fn upstream_path(path_and_query: Seq<char>) -> Seq<char> {
    if path_and_query.len() > 0 && path_and_query[0] == '/' {
        path_and_query
    } else {
        "/"@
    }
}

/// The address at which the sandbox on `port` gets a request.
pub open spec fn upstream_url_spec(port: u16, path_and_query: Seq<char>) -> Seq<char> {
    "http://127.0.0.1:"@ + decimal_text(port as nat) + upstream_path(path_and_query)
}

/// The address at which the sandbox on `port` gets a request for
/// `path_and_query`.
pub fn upstream_url(port: u16, path_and_query: &str) -> (url: String)
    ensures
        url@ == upstream_url_spec(port, path_and_query@),
{
    let mut url = String::from_str("http://127.0.0.1:");
    let digits = decimal_string(port as u64);
    url.append(digits.as_str());
    let rooted = path_and_query.unicode_len() > 0 && path_and_query.get_char(0) == '/';
    if rooted {
        url.append(path_and_query);
    } else {
        url.append("/");
    }
    url
}

/// One header line of a message.
#[derive(Debug)]
pub struct Header {
    pub name: Vec<u8>,
    pub value: Vec<u8>,
}

/// What the sandbox answered, or what the client is sent.
#[derive(Debug)]
pub struct Reply {
    pub status: u16,
    pub headers: Vec<Header>,
    pub body: Vec<u8>,
}

/// A message as mathematical values: the status, the header lines as pairs
/// of name and value, and the body.
pub struct ReplyView {
    pub status: u16,
    pub headers: Seq<(Seq<u8>, Seq<u8>)>,
    pub body: Seq<u8>,
}

impl View for Reply {
    type V = ReplyView;

    open spec fn view(&self) -> ReplyView {
        ReplyView { status: self.status, headers: headers_view(self.headers@), body: self.body@ }
    }
}

/// The parts of the client's request that the signature covers.
#[derive(Debug)]
pub struct Request {
    pub method: String,
    pub path_and_query: String,
    pub body: Vec<u8>,
}

/// The header lines as pairs of name and value.
pub open spec fn headers_view(headers: Seq<Header>) -> Seq<(Seq<u8>, Seq<u8>)> {
    headers.map_values(|h: Header| (h.name@, h.value@))
}

/// A letter of either case as its small form; any other byte as it is.
pub open spec fn lower(b: u8) -> u8 {
    if 65 <= b <= 90 {
        (b + 32) as u8
    } else {
        b
    }
}

/// Two header names are the same when they differ in the case of letters
/// at most.
pub open spec fn same_name(a: Seq<u8>, b: Seq<u8>) -> bool {
    a.len() == b.len() && forall|i: int| 0 <= i < a.len() ==> lower(#[trigger] a[i]) == lower(b[i])
}

/// The headers with `name` set to `value`: lines of that name leave, and the
/// new line comes last.
pub open spec fn with_header(
    headers: Seq<(Seq<u8>, Seq<u8>)>,
    name: Seq<u8>,
    value: Seq<u8>,
) -> Seq<(Seq<u8>, Seq<u8>)> {
    headers.filter(|h: (Seq<u8>, Seq<u8>)| !same_name(h.0, name)).push((name, value))
}

/// The bytes that are hashed and signed for one exchange: a tag for the
/// scheme, the time in seconds as eight bytes with the high byte first, then
/// the request's method, path with query, host and body, then the body of the
/// answer, each behind its label.
pub open spec fn signing_input(
    timestamp: u64,
    method: Seq<u8>,
    path_and_query: Seq<u8>,
    host: Seq<u8>,
    body: Seq<u8>,
    response_body: Seq<u8>,
) -> Seq<u8> {
    "|oyster-serverless-hasher|".spec_bytes() + "|timestamp|".spec_bytes() + be_bytes(
        timestamp as nat,
        8,
    ) + "|request|".spec_bytes() + "|method|".spec_bytes() + method + "|pathandquery|".spec_bytes()
        + path_and_query + "|host|".spec_bytes() + host + "|body|".spec_bytes() + body
        + "|response|".spec_bytes() + "|body|".spec_bytes() + response_body
}

/// The name of the header that carries the time of signing.
pub open spec fn timestamp_header() -> Seq<u8> {
    "X-Oyster-Timestamp".spec_bytes()
}

/// The name of the header that carries the signature.
pub open spec fn signature_header() -> Seq<u8> {
    "X-Oyster-Signature".spec_bytes()
}

/// Tells whether two header names are the same.
pub fn names_match(a: &[u8], b: &[u8]) -> (res: bool)
    ensures
        res == same_name(a@, b@),
{
    if a.len() != b.len() {
        return false;
    }
    let mut i: usize = 0;
    while i < a.len()
        invariant
            i <= a.len() == b.len(),
            forall|j: int| 0 <= j < i ==> lower(#[trigger] a@[j]) == lower(b@[j]),
        decreases a.len() - i,
    {
        let x = if 65 <= a[i] && a[i] <= 90 {
            a[i] + 32
        } else {
            a[i]
        };
        let y = if 65 <= b[i] && b[i] <= 90 {
            b[i] + 32
        } else {
            b[i]
        };
        if x != y {
            return false;
        }
        i += 1;
    }
    true
}

/// Sets the header `name` to `value`: lines of that name leave, and the new
/// line comes last.
pub fn insert_header(headers: &Vec<Header>, name: &[u8], value: &[u8]) -> (out: Vec<Header>)
    ensures
        headers_view(out@) == with_header(headers_view(headers@), name@, value@),
{
    let ghost keep = |h: (Seq<u8>, Seq<u8>)| !same_name(h.0, name@);
    let mut out: Vec<Header> = Vec::new();
    let mut i: usize = 0;
    proof {
        reveal(Seq::filter);
        assert(headers_view(headers@).subrange(0, 0) =~= Seq::<(Seq<u8>, Seq<u8>)>::empty());
        assert(headers_view(out@) =~= Seq::<(Seq<u8>, Seq<u8>)>::empty());
    }
    while i < headers.len()
        invariant
            i <= headers.len(),
            keep == (|h: (Seq<u8>, Seq<u8>)| !same_name(h.0, name@)),
            headers_view(out@) == headers_view(headers@).subrange(0, i as int).filter(keep),
        decreases headers.len() - i,
    {
        let h = &headers[i];
        let same = names_match(h.name.as_slice(), name);
        proof {
            reveal(Seq::filter);
            let upto = headers_view(headers@).subrange(0, i + 1);
            assert(upto.drop_last() =~= headers_view(headers@).subrange(0, i as int));
            assert(upto.last() == (h.name@, h.value@));
        }
        if !same {
            let mut n: Vec<u8> = Vec::new();
            append(&mut n, h.name.as_slice());
            let mut v: Vec<u8> = Vec::new();
            append(&mut v, h.value.as_slice());
            let ghost before = headers_view(out@);
            out.push(Header { name: n, value: v });
            assert(n@ =~= h.name@ && v@ =~= h.value@);
            assert(headers_view(out@) =~= before.push((h.name@, h.value@)));
        }
        i += 1;
    }
    assert(headers_view(headers@).subrange(0, i as int) =~= headers_view(headers@));
    let mut n: Vec<u8> = Vec::new();
    append(&mut n, name);
    let mut v: Vec<u8> = Vec::new();
    append(&mut v, value);
    let ghost before = headers_view(out@);
    out.push(Header { name: n, value: v });
    assert(n@ =~= name@ && v@ =~= value@);
    assert(headers_view(out@) =~= before.push((name@, value@)));
    out
}

/// Writes the bytes that are hashed and signed for one exchange.
pub fn signing_bytes(
    timestamp: u64,
    method: &[u8],
    path_and_query: &[u8],
    host: &[u8],
    body: &[u8],
    response_body: &[u8],
) -> (out: Vec<u8>)
    ensures
        out@ == signing_input(timestamp, method@, path_and_query@, host@, body@, response_body@),
{
    let mut out = owned("|oyster-serverless-hasher|");
    append(&mut out, "|timestamp|".as_bytes());
    let stamp = to_be_bytes(timestamp as u128, 8);
    append(&mut out, stamp.as_slice());
    append(&mut out, "|request|".as_bytes());
    append(&mut out, "|method|".as_bytes());
    append(&mut out, method);
    append(&mut out, "|pathandquery|".as_bytes());
    append(&mut out, path_and_query);
    append(&mut out, "|host|".as_bytes());
    append(&mut out, host);
    append(&mut out, "|body|".as_bytes());
    append(&mut out, body);
    append(&mut out, "|response|".as_bytes());
    append(&mut out, "|body|".as_bytes());
    append(&mut out, response_body);
    out
}

/// What the client is sent for an answer of the sandbox: the answer's status,
/// headers and body, with the time of signing and the signature set as
/// headers. `None` where signing fails.
pub open spec fn signed_reply(
    status: u16,
    headers: Seq<(Seq<u8>, Seq<u8>)>,
    response_body: Seq<u8>,
    timestamp: u64,
    method: Seq<u8>,
    path_and_query: Seq<u8>,
    host: Seq<u8>,
    body: Seq<u8>,
    signer: Seq<u8>,
) -> Option<(u16, Seq<(Seq<u8>, Seq<u8>)>, Seq<u8>)> {
    match signed_hex(
        signer,
        signing_input(timestamp, method, path_and_query, host, body, response_body),
    ) {
        Some(signature) => Some(
            (
                status,
                with_header(
                    with_header(
                        headers,
                        timestamp_header(),
                        encode_utf8(decimal_text(timestamp as nat)),
                    ),
                    signature_header(),
                    encode_utf8(signature),
                ),
                response_body,
            ),
        ),
        None => None,
    }
}

/// Signs the exchange of `request` and the sandbox's answer `upstream` at the
/// time `timestamp`, and hands back the answer with the two signing headers.
pub fn get_workerd_response(
    upstream: Reply,
    request: &Request,
    signer: &[u8],
    host_header: &[u8],
    timestamp: u64,
) -> (res: Result<Reply, SigningError>)
    ensures
        match signed_reply(
            upstream.status,
            headers_view(upstream.headers@),
            upstream.body@,
            timestamp,
            encode_utf8(request.method@),
            encode_utf8(request.path_and_query@),
            host_header@,
            request.body@,
            signer@,
        ) {
            Some((status, headers, body)) => {
                &&& res is Ok
                &&& res->Ok_0.status == status
                &&& headers_view(res->Ok_0.headers@) == headers
                &&& res->Ok_0.body@ == body
            },
            None => res == Err::<Reply, SigningError>(SigningError),
        },
        res is Ok ==> {
            let headers = headers_view(res->Ok_0.headers@);
            &&& headers.len() > 0
            &&& headers.last().0 == signature_header()
            &&& headers.last().1.len() == SIGNATURE_DIGITS
        },
{
    let input = signing_bytes(
        timestamp,
        request.method.as_str().as_bytes(),
        request.path_and_query.as_str().as_bytes(),
        host_header,
        request.body.as_slice(),
        upstream.body.as_slice(),
    );
    match sign_data(input.as_slice(), signer) {
        Err(e) => Err(e),
        Ok(signature) => {
            proof {
                let (rs, v) = ecdsa_signature(signer@, keccak256(input@))->Some_0;
                hex_lower_is_plain(signature_wire(rs, v));
            }
            let stamp = decimal_string(timestamp);
            let stamped = insert_header(
                &upstream.headers,
                "X-Oyster-Timestamp".as_bytes(),
                stamp.as_str().as_bytes(),
            );
            let signed = insert_header(
                &stamped,
                "X-Oyster-Signature".as_bytes(),
                signature.as_str().as_bytes(),
            );
            Ok(Reply { status: upstream.status, headers: signed, body: upstream.body })
        },
    }
}

/// Two exchanges that agree on time, method, path, host and both bodies are
/// signed alike by one key.
pub proof fn same_exchange_same_signature(
    signer: Seq<u8>,
    timestamp: u64,
    method: Seq<u8>,
    path_and_query: Seq<u8>,
    host: Seq<u8>,
    body: Seq<u8>,
    first_answer: Seq<u8>,
    second_answer: Seq<u8>,
)
    requires
        first_answer == second_answer,
    ensures
        signed_hex(
            signer,
            signing_input(timestamp, method, path_and_query, host, body, first_answer),
        ) == signed_hex(
            signer,
            signing_input(timestamp, method, path_and_query, host, body, second_answer),
        ),
{
}

/// How long the sandbox is given to open its port, in milliseconds.
pub const READY_MILLIS: u64 = 1000;

/// The pause after an attempt that failed, in milliseconds.
pub const READY_POLL_MILLIS: u64 = 1;

/// How long the sandbox is given to answer, in seconds.
pub const PROXY_SECONDS: u64 = 5;

/// Tells whether the port may be tried once more, `elapsed_millis` after the
/// first attempt was due: the sandbox has one second to open it.
pub fn wait_for_port(elapsed_millis: u64) -> (again: bool)
    ensures
        again == (elapsed_millis < READY_MILLIS),
{
    elapsed_millis < READY_MILLIS
}

} // verus!
