use k8s_ldap_auth::conns::_check_remote_peer;
use k8s_ldap_auth::conns::_verify_token_review_str_result;
use k8s_ldap_auth::conns::effective_timeout;
use k8s_ldap_auth::conns::handled_log;
use k8s_ldap_auth::conns::handshake_failure_code;
use k8s_ldap_auth::conns::listen_address;
use k8s_ldap_auth::conns::on_server_event;
use k8s_ldap_auth::conns::response_bytes;
use k8s_ldap_auth::conns::review_log;
use k8s_ldap_auth::conns::send_failure;
use k8s_ldap_auth::conns::settle_race;
use k8s_ldap_auth::conns::PeerRead;
use k8s_ldap_auth::conns::Race;
use k8s_ldap_auth::conns::ServerAction;
use k8s_ldap_auth::conns::ServerEvent;
use k8s_ldap_auth::conns::ServerState;
use k8s_ldap_auth::error::ErrorChain;
use k8s_ldap_auth::logging::Level;
use k8s_ldap_auth::map::TextMap;
use k8s_ldap_auth::reader::ParseOutcome;
use k8s_ldap_auth::reader::ReadStep;
use k8s_ldap_auth::reader::RequestReader;
use k8s_ldap_auth::request::_extract_method_endpoint_timeout_url;
use k8s_ldap_auth::request::_parse_k8s_duration;
use k8s_ldap_auth::request::content_length;
use k8s_ldap_auth::request::k8s_duration_fits;
use k8s_ldap_auth::request::timeout_fits;
use k8s_ldap_auth::request::HttpVerb;
use k8s_ldap_auth::request::Timeout;
use k8s_ldap_auth::search::SearchEntry;
use k8s_ldap_auth::token::begin_tokenreview_request;
use k8s_ldap_auth::token::handle_tokenreview_request;

/// The end of reading a request that comes in pieces of the given size, and the
/// bytes behind what was read.
fn read_request(request: &[u8], size: usize) -> (Option<u16>, ParseOutcome) {
    let mut reader = RequestReader::new();
    let mut at = 0;
    loop {
        let end = std::cmp::min(at + size, request.len());
        match reader.on_read(&request[at..end]) {
            ReadStep::More(next) => reader = next,
            ReadStep::Rest(pending) => {
                let rest = &request[end..end + pending.missing()];
                return (None, pending.complete(rest));
            }
            ReadStep::Done(code, outcome) => return (code, outcome),
            ReadStep::Overflow => panic!("the timeout is too long"),
        }
        at = end;
    }
}

/// What is answered to a request when the directory knows John Doe.
fn serve(request: &str) -> Vec<u8> {
    let body = match read_request(request.as_bytes(), 4096) {
        (Some(code), _) => return response_bytes(code, &[]),
        (None, ParseOutcome::Body(body, _, _, _)) => body,
        (None, ParseOutcome::Handled(_, _, _, _)) => return Vec::new(),
    };
    let mut attrs = TextMap::new();
    attrs.insert("k8s_extra_givenName".to_string(), "givenName".to_string());
    attrs.insert("k8s_extra_cn".to_string(), "cn".to_string());
    attrs.insert("groups".to_string(), "memberOf".to_string());
    let mut values = TextMap::new();
    values.insert("cn".to_string(), vec!["John Doe".to_string()]);
    values.insert("givenName".to_string(), vec!["John".to_string()]);
    values.insert(
        "memberOf".to_string(),
        vec![
            "cn=group1,cn=groups,cn=accounts,dc=example,dc=test".to_string(),
            "cn=group2,cn=groups,cn=accounts,dc=example,dc=test".to_string(),
        ],
    );
    let entry = SearchEntry { dn: "uid=johndoe".to_string(), attrs: values };
    let result = begin_tokenreview_request(&body)
        .and_then(|query| handle_tokenreview_request(query, Ok(entry), &attrs));
    settle_race(&Race::Reviewed(result)).unwrap().1
}

fn get_request_for_test_with_path(token: &str, path: &str) -> String {
    let payload = format!(
        r#"
                {{
                    "apiVersion":"authentication.k8s.io/v1",
                    "kind":"TokenReview",
                    "spec":{{
                        "token":"{}",
                        "audiences": ["https://example.test", "https://internal.example.test"]
                    }}
                }}
            "#,
        token
    );
    format!(
        "POST {} HTTP/1.1\r\nHost: 127.0.0.1\r\nConnection: close\r\nContent-Length: {}\r\n\r\n{}",
        path,
        payload.len(),
        payload
    )
}

fn get_request_for_test(token: &str) -> String {
    get_request_for_test_with_path(token, "/authenticate")
}

#[test]
fn test_server_404() {
    let request = "GET / HTTP/1.1\r\nHost: 127.0.0.1\r\nConnection: close\r\n\r\n";
    assert_eq!(serve(request), b"HTTP/1.1 404 Not Found\r\nContent-Length: 0\r\n\r\n");
}

#[test]
fn test_server_valid_user() {
    let response = serve(&get_request_for_test("am9obmRvZTpwYXNzd29yZA=="));
    let expected = "\
        HTTP/1.1 200 OK\r\n\
        Content-Type: application/json\r\n\
        Content-Length: 295\r\n\r\n\
        {\"apiVersion\":\"authentication.k8s.io/v1\",\"kind\":\"TokenReview\",\
        \"metadata\":{},\"spec\":{},\"status\":{\"audiences\":\
        [\"https://example.test\",\"https://internal.example.test\"],\
        \"authenticated\":true,\"user\":{\"extra\":{\"cn\":[\"John Doe\"],\
        \"givenName\":[\"John\"]},\"groups\":[\"group1\",\"group2\"],\
        \"username\":\"johndoe\"}}}\
    ";
    assert_eq!(String::from_utf8(response).unwrap(), String::from(expected));
}

#[test]
fn test_server_413() {
    let request =
        b"POST /authenticate HTTP/1.1\r\nHost: 127.0.0.1\r\nContent-Length:69004\r\n\r\n";
    let big_payload = vec![0u8; 69000];
    let request =
        String::from_utf8([request, big_payload.as_slice(), b"\r\n\r\n"].concat()).unwrap();
    assert_eq!(serve(&request), b"HTTP/1.1 413 Payload Too Large\r\nContent-Length: 0\r\n\r\n");
}

#[test]
fn test_server_411() {
    let request = "POST /authenticate HTTP/1.1\r\nHost: 127.0.0.1\r\n\r\n";
    assert_eq!(serve(request), b"HTTP/1.1 411 Length Required\r\nContent-Length: 0\r\n\r\n");
}

#[test]
fn test_server_400() {
    let request = get_request_for_test("am9obmRvZTpwYXNzd2");
    assert_eq!(serve(&request), b"HTTP/1.1 400 Bad Request\r\nContent-Length: 0\r\n\r\n");
}

#[test]
fn test_server_valid_user_with_query_param() {
    let request =
        get_request_for_test_with_path("am9obmRvZTpwYXNzd29yZA==", "/authenticate?timeout=30s");
    assert!(String::from_utf8(serve(&request)).unwrap().starts_with("HTTP/1.1 200 OK"));
}

#[test]
fn test_server_parse_k8s_duration() {
    assert_eq!(_parse_k8s_duration("30s"), Some(Timeout::from_secs(30)));
    assert_eq!(_parse_k8s_duration("500ms"), Some(Timeout::from_millis(500)));
    assert_eq!(_parse_k8s_duration("2m"), Some(Timeout::from_secs(120)));
    assert_eq!(_parse_k8s_duration(""), None);
    assert_eq!(_parse_k8s_duration("abc"), None);
}

#[test]
fn test_server_method_not_allowed() {
    let request = "GET /authenticate HTTP/1.1\r\nHost: 127.0.0.1\r\nConnection: close\r\n\r\n";
    assert_eq!(serve(request), b"HTTP/1.1 405 Method Not Allowed\r\nContent-Length: 0\r\n\r\n");
}

#[test]
fn test_server_400_malformed_request_line() {
    let request =
        "NOTAVERB /authenticate HTTP/1.1\r\nHost: 127.0.0.1\r\nContent-Length: 2\r\n\r\n{}";
    assert_eq!(serve(request), b"HTTP/1.1 400 Bad Request\r\nContent-Length: 0\r\n\r\n");
}

#[test]
fn test_server_timeout() {
    let request =
        get_request_for_test_with_path("am9obmRvZTpwYXNzd29yZA==", "/authenticate?timeout=1s");
    match read_request(request.as_bytes(), 4096) {
        (None, ParseOutcome::Body(_, _, _, timeout)) => {
            // The directory takes five seconds and is given ten.
            let limit = effective_timeout(timeout, Timeout::from_secs(10));
            assert_eq!(limit, Some(Timeout::from_secs(1)));
        }
        _ => panic!("the request is to be read"),
    }
    let (code, bytes) = settle_race(&Race::TimedOut).unwrap();
    assert_eq!(code, 504);
    assert_eq!(bytes, b"HTTP/1.1 504 Gateway Timeout\r\nContent-Length: 0\r\n\r\n");
}

#[test]
fn test_server_no_timeout_param_gets_normal_response() {
    let request = get_request_for_test("am9obmRvZTpwYXNzd29yZA==");
    match read_request(request.as_bytes(), 4096) {
        (None, ParseOutcome::Body(_, _, _, timeout)) => {
            assert_eq!(effective_timeout(timeout, Timeout::from_secs(10)), None);
        }
        _ => panic!("the request is to be read"),
    }
    assert!(String::from_utf8(serve(&request)).unwrap().starts_with("HTTP/1.1 200 OK"));
}

#[test]
fn test_server_query_string_multiple_params() {
    let request = get_request_for_test_with_path(
        "am9obmRvZTpwYXNzd29yZA==",
        "/authenticate?foo=bar&timeout=30s&baz=qux",
    );
    assert!(String::from_utf8(serve(&request)).unwrap().starts_with("HTTP/1.1 200 OK"));
}

#[test]
fn test_server_extract_method_endpoint_timeout() {
    let cases = [
        ("POST /authenticate HTTP/1.1", ("POST", "/authenticate", None)),
        (
            "POST /authenticate?timeout=30s HTTP/1.1",
            ("POST", "/authenticate", Some(Timeout::from_secs(30))),
        ),
        (
            "POST /authenticate?foo=bar&timeout=5s HTTP/1.1",
            ("POST", "/authenticate", Some(Timeout::from_secs(5))),
        ),
        ("GET / HTTP/1.1", ("GET", "/", None)),
        ("NOTAVERB /authenticate HTTP/1.1", ("UNKNOWN", "/authenticate", None)),
        ("", ("UNKNOWN", "UNKNOWN", None)),
    ];
    for (input, expected) in cases {
        let (method, endpoint, timeout) = _extract_method_endpoint_timeout_url(input);
        assert_eq!(method, expected.0);
        assert_eq!(endpoint, expected.1);
        assert_eq!(timeout, expected.2);
    }
}

#[test]
fn requests_may_come_in_any_pieces() {
    let request = get_request_for_test_with_path("x", "/authenticate?a=b&timeout=1500ms");
    for size in [1, 2, 3, 5, 64, 4096] {
        match read_request(request.as_bytes(), size) {
            (None, ParseOutcome::Body(body, endpoint, length, timeout)) => {
                assert!(request.ends_with(&body));
                assert_eq!(length, body.len());
                assert_eq!(endpoint, "/authenticate");
                assert_eq!(timeout, Some(Timeout { secs: 1, millis: 500 }));
            }
            _ => panic!("the request is to be read"),
        }
    }
}

#[test]
fn what_is_behind_the_body_is_left_out() {
    let request = "POST /authenticate HTTP/1.1\r\ncontent-length: 2\r\n\r\n{} and more";
    match read_request(request.as_bytes(), 4096) {
        (None, ParseOutcome::Body(body, _, length, timeout)) => {
            assert_eq!(body, "{}");
            assert_eq!(length, 2);
            assert_eq!(timeout, None);
        }
        _ => panic!("the request is to be read"),
    }
}

#[test]
fn bytes_that_are_no_text_are_replaced() {
    let request = b"POST /authenticate HTTP/1.1\r\nContent-Length: 3\r\n\r\na\xffb";
    match read_request(request, 4096) {
        (None, ParseOutcome::Body(body, _, _, _)) => assert_eq!(body, "a\u{fffd}b"),
        _ => panic!("the request is to be read"),
    }
}

#[test]
fn streams_that_end_early() {
    match read_request(b"", 4096) {
        (None, ParseOutcome::Handled(204, endpoint, method, 0)) => {
            assert_eq!(endpoint, "UNKNOWN");
            assert_eq!(method, "UNKNOWN");
        }
        _ => panic!("nothing is to be answered"),
    }
}

#[test]
fn heads_that_are_too_large() {
    let request = vec![b'a'; 70000];
    match read_request(&request, 4096) {
        (Some(413), ParseOutcome::Handled(413, _, _, bytes)) => assert_eq!(bytes, 69632),
        _ => panic!("the request is to be refused"),
    }
}

#[test]
fn parts_of_a_request_line() {
    let parts = |head: &str| _extract_method_endpoint_timeout_url(head);
    let unknown = "UNKNOWN".to_string();
    assert_eq!(parts(""), (unknown.clone(), unknown.clone(), None));
    assert_eq!(parts("GET"), ("GET".to_string(), unknown.clone(), None));
    assert_eq!(parts("get a?timeout=1m x"), (
        "get".to_string(),
        "/a".to_string(),
        Some(Timeout::from_secs(60))
    ));
    assert_eq!(parts("X /b?timeout=x&timeout=3s"), (
        unknown,
        "/b".to_string(),
        Some(Timeout::from_secs(3))
    ));
}

#[test]
fn timeouts_that_cannot_be_counted() {
    assert!(k8s_duration_fits("307445734561825860m"));
    assert!(!k8s_duration_fits("307445734561825861m"));
    assert!(k8s_duration_fits("18446744073709551615s"));
    assert!(!timeout_fits("GET /?timeout=307445734561825861m x"));
    assert!(timeout_fits("GET /?timeout=1s&timeout=307445734561825861m x"));
    let request = b"GET /?timeout=307445734561825861m x\r\n\r\n";
    assert!(matches!(RequestReader::new().on_read(request), ReadStep::Overflow));
}

#[test]
fn announced_lengths() {
    assert_eq!(content_length("a\r\nCONTENT-LENGTH:  12 \r\n\r\n"), Some(12));
    assert_eq!(content_length("a\r\nContent-Length: x\r\nContent-Length: 3\r\n"), None);
    assert_eq!(content_length("a\r\nContent-Length: 5:6\r\n"), Some(5));
    assert_eq!(content_length("a\r\nLength: 5\r\n"), None);
}

#[test]
fn verbs() {
    assert_eq!(HttpVerb::from_str("post"), Ok(HttpVerb::Post));
    assert_eq!(HttpVerb::from_str("Delete"), Ok(HttpVerb::Delete));
    assert_eq!(HttpVerb::from_str("x"), Err("Unsupported HTTP verb: x".to_string()));
    assert_eq!("options".parse::<HttpVerb>(), Ok(HttpVerb::Options));
}

#[test]
fn answers_to_reviews() {
    let ok = Ok(("{\"ä\"}".to_string(), "john".to_string(), true));
    let (code, bytes) = _verify_token_review_str_result(&ok);
    assert_eq!(code, 200);
    assert_eq!(
        String::from_utf8(bytes).unwrap(),
        "HTTP/1.1 200 OK\r\nContent-Type: application/json\r\nContent-Length: 6\r\n\r\n{\"ä\"}"
    );
    let bad = Err(ErrorChain::msg("Error of the request".to_string()));
    assert_eq!(_verify_token_review_str_result(&bad).0, 400);
    let failed = Err(ErrorChain::msg("no error".to_string()));
    let (code, bytes) = _verify_token_review_str_result(&failed);
    assert_eq!(code, 500);
    assert_eq!(bytes, b"HTTP/1.1 500 Internal Server Error\r\nContent-Length: 0\r\n\r\n");
    assert!(settle_race(&Race::WatchEnded).is_none());
}

#[test]
fn announced_length_of_an_answer_is_that_of_its_body() {
    let ok = Ok(("{\"ä\"}".to_string(), "john".to_string(), true));
    let text = String::from_utf8(_verify_token_review_str_result(&ok).1).unwrap();
    let (head, body) = text.split_once("\r\n\r\n").unwrap();
    assert_eq!(content_length(head), Some(body.len()));
    let text = String::from_utf8(response_bytes(404, &[])).unwrap();
    assert_eq!(content_length(&text), Some(0));
}

#[test]
fn codes_without_an_answer() {
    assert_eq!(response_bytes(204, b"x"), b"");
    assert_eq!(response_bytes(200, b"x"), b"x");
}

#[test]
fn logged_lines() {
    let ok = Ok(("{}".to_string(), "john".to_string(), true));
    assert_eq!(
        review_log(&ok, "10.0.0.1", "/authenticate", 12),
        (Level::INFO, "10.0.0.1 - 200 - POST /authenticate - 12 - john - SUCCESS".to_string())
    );
    let fail = Ok(("{}".to_string(), "john".to_string(), false));
    assert_eq!(
        review_log(&fail, "10.0.0.1", "/authenticate", 12),
        (Level::INFO, "10.0.0.1 - 200 - POST /authenticate - 12 - john - FAIL".to_string())
    );
    let bad = Err(ErrorChain::msg("Error".to_string()));
    assert_eq!(
        review_log(&bad, "::1", "/authenticate", 0),
        (
            Level::WARN,
            "::1 - 400 - POST /authenticate - 0 - ERROR - \n     Caused by: Error".to_string()
        )
    );
    let failed = Err(ErrorChain::msg("x".to_string()));
    assert_eq!(review_log(&failed, "::1", "/authenticate", 0).0, Level::ERROR);
    assert_eq!(
        handled_log(404, "/x", "GET", 7, "::1"),
        (Level::INFO, "::1 - 404 - GET /x - 7".to_string())
    );
    assert_eq!(handled_log(413, "/x", "GET", 7, "::1").0, Level::WARN);
}

#[test]
fn answers_that_cannot_be_sent() {
    let error = || ErrorChain::msg("b".to_string()).context("a".to_string());
    assert_eq!(
        send_failure("/authenticate", Some("john"), &error()),
        "- /authenticate - john - Failed to send response - a\n     Caused by: b"
    );
    assert_eq!(
        send_failure("/authenticate", None, &error()),
        "- /authenticate - Failed to send response - a\n     Caused by: b"
    );
}

#[test]
fn timeouts_in_effect() {
    let directory = Timeout::from_secs(10);
    assert_eq!(effective_timeout(None, directory), None);
    assert_eq!(
        effective_timeout(Some(Timeout::from_millis(500)), directory),
        Some(Timeout::from_millis(500))
    );
    assert_eq!(effective_timeout(Some(Timeout::from_secs(30)), directory), Some(directory));
}

#[test]
fn peers_and_handshakes() {
    assert_eq!(_check_remote_peer(PeerRead::Closed), Some(Level::INFO));
    assert_eq!(_check_remote_peer(PeerRead::Bytes), None);
    assert_eq!(_check_remote_peer(PeerRead::WouldBlock), None);
    assert_eq!(_check_remote_peer(PeerRead::Failed), Some(Level::ERROR));
    assert_eq!(handshake_failure_code("invalid peer certificate: Expired"), 526);
    assert_eq!(handshake_failure_code("tls handshake eof"), 525);
}

#[test]
fn only_signals_stop_the_server() {
    let start = ServerState::new();
    let (state, action) = on_server_event(start, ServerEvent::AcceptFailed);
    assert_eq!((state, action), (start, ServerAction::Continue));
    let (state, action) = on_server_event(start, ServerEvent::Interrupt);
    assert_eq!(action, ServerAction::Return);
    assert!(!state.accepting);
}

#[test]
fn stopped_server_waits_for_its_connections() {
    let mut state = ServerState::new();
    let mut actions = Vec::new();
    for event in [
        ServerEvent::Accepted,
        ServerEvent::Accepted,
        ServerEvent::Finished,
        ServerEvent::Terminate,
        ServerEvent::Accepted,
        ServerEvent::Finished,
    ] {
        let (next, action) = on_server_event(state, event);
        state = next;
        actions.push(action);
    }
    assert_eq!(
        actions,
        vec![
            ServerAction::Serve,
            ServerAction::Serve,
            ServerAction::Continue,
            ServerAction::Continue,
            ServerAction::Continue,
            ServerAction::Return,
        ]
    );
}

#[test]
fn listen_addresses() {
    assert_eq!(listen_address("127.0.0.1"), (127, 0, 0, 1));
    assert_eq!(listen_address("255.255.255.255"), (255, 255, 255, 255));
    for text in ["", "1.2.3", "1.2.3.4.5", "256.1.1.1", "01.1.1.1", "+1.1.1.1", "1.2.3.x", "::1"] {
        assert_eq!(listen_address(text), (0, 0, 0, 0));
    }
}
