use uiviewer::adb::Ended;
use uiviewer::bytes::fnv1a_hash;
use uiviewer::capture::ShotSource;
use uiviewer::http::{
    after_header, finish_response, http_jsonrpc_with_timeout, http_request, jsonrpc_body,
    jsonrpc_reply, read_chunked, refusal_text, request_head, ChunkPart, ChunkStep, Got, Member,
    Response, Scalar, Step, Want,
};
use uiviewer::u2::{
    begin_launch, decode_screenshot, ensure_u2v3_running, fetch_u2_hierarchy, fetch_u2_screenshot,
    hierarchy_params, launch_u2v3, lists_forward, probe_u2_hierarchy_hash, release_u2v3_resources,
    screenshot_params, shut_down, stop_u2v3, stop_u2v3_if_current, u2v3_alive,
    u2v3_forward_matches, without_white, HierarchyStep, LaunchAction, LaunchEvent, LaunchStage,
    Readiness, Session, ShotStep,
};

fn line(s: &str) -> Got {
    Got::Line(Ok(s.to_string()))
}

fn bytes(b: &[u8]) -> Got {
    Got::Bytes(Ok(b.to_vec()))
}

/// Serves a response from memory, as a connection would.
fn serve(raw: &[u8]) -> Result<Vec<u8>, String> {
    let mut rest = raw;
    let mut state = Response::Status;
    loop {
        let got = match state.wanted() {
            Want::Line => {
                let end = rest.iter().position(|b| *b == b'\n').map_or(rest.len(), |i| i + 1);
                let (head, tail) = rest.split_at(end);
                rest = tail;
                Got::Line(String::from_utf8(head.to_vec()).map_err(|_| "no text".to_string()))
            }
            Want::Exact(n) => {
                if rest.len() < n {
                    Got::Bytes(Err("failed to fill whole buffer".into()))
                } else {
                    let (head, tail) = rest.split_at(n);
                    rest = tail;
                    Got::Bytes(Ok(head.to_vec()))
                }
            }
            Want::Rest => {
                let all = rest.to_vec();
                rest = &[];
                Got::Bytes(Ok(all))
            }
        };
        match http_request(state, got) {
            Step::More(next) => state = next,
            Step::Done(r) => return r,
        }
    }
}

#[test]
fn requests_have_a_head() {
    assert_eq!(
        request_head("127.0.0.1:9008", "GET", "/ping", None),
        "GET /ping HTTP/1.1\r\nHost: 127.0.0.1:9008\r\nConnection: close\r\n\r\n"
    );
    assert_eq!(
        request_head("h", "POST", "/jsonrpc/0", Some(b"0123456789")),
        "POST /jsonrpc/0 HTTP/1.1\r\nHost: h\r\nContent-Type: application/json\r\nContent-Length: 10\r\nConnection: close\r\n\r\n"
    );
}

#[test]
fn a_plain_response_is_its_body() {
    assert_eq!(serve(b"HTTP/1.1 200 OK\r\nX: y\r\n\r\npong\n"), Ok(b"pong\n".to_vec()));
    assert_eq!(serve(b"HTTP/1.1 204\r\n\r\n"), Ok(Vec::new()));
}

#[test]
fn a_chunked_response_is_its_chunks() {
    assert_eq!(
        serve(b"HTTP/1.1 200 OK\r\nTransfer-Encoding: Chunked\r\n\r\n3\r\nabc\r\nA \r\n0123456789\r\n0\r\n\r\nrest"),
        Ok(b"abc0123456789".to_vec())
    );
    assert_eq!(
        serve(b"HTTP/1.1 200 OK\r\ntransfer-encoding: chunked\r\n"),
        Err("parse chunk size: cannot parse integer from empty string".to_string())
    );
    assert_eq!(
        serve(b"HTTP/1.1 200 OK\r\ntransfer-encoding: chunked\r\n\r\nxyz\r\n"),
        Err("parse chunk size: invalid digit found in string".to_string())
    );
    assert_eq!(
        serve(b"HTTP/1.1 200 OK\r\ntransfer-encoding: chunked\r\n\r\n5\r\nabc"),
        Err("read chunk: failed to fill whole buffer".to_string())
    );
    assert_eq!(
        serve(b"HTTP/1.1 200 OK\r\ntransfer-encoding: chunked\r\n\r\n3\r\nabc"),
        Err("read crlf: failed to fill whole buffer".to_string())
    );
    assert_eq!(
        serve(b"HTTP/1.1 200 OK\r\ntransfer-encoding: chunked\r\n\r\nfffffffffffffffff\r\n"),
        Err("parse chunk size: number too large to fit in target type".to_string())
    );
}

#[test]
fn other_codes_are_errors() {
    assert_eq!(
        serve(b"HTTP/1.1 500 Oops\r\n\r\n  broken \n"),
        Err("HTTP 500: broken".to_string())
    );
    assert_eq!(serve(b"HTTP/1.1 404 Not Found\r\n\r\n \n"), Err("HTTP 404".to_string()));
    assert_eq!(serve(b""), Err("HTTP ".to_string()));
    assert_eq!(refusal_text("302", "go \u{3000}"), "HTTP 302: go");
    assert_eq!(finish_response("200", vec![1]), Ok(vec![1]));
    assert_eq!(finish_response("x", vec![0xff]), Err("HTTP x: \u{fffd}".to_string()));
}

#[test]
fn reading_errors_name_their_place() {
    let failed = || Got::Line(Err("reset".into()));
    let done = |s: Step| match s {
        Step::Done(Err(e)) => e,
        _ => String::new(),
    };
    assert_eq!(done(http_request(Response::Status, failed())), "read status: reset");
    assert_eq!(
        done(http_request(Response::Headers("200".into(), false), failed())),
        "read header: reset"
    );
    assert_eq!(
        done(http_request(Response::Body("200".into()), Got::Bytes(Err("reset".into())))),
        "read body: reset"
    );
    assert_eq!(
        done(http_request(Response::Chunks("200".into(), ChunkPart::Size, vec![]), failed())),
        "read chunk size: reset"
    );
    assert_eq!(serve(b"HTTP/1.1 200 OK\r\n\xff\r\n"), Err("read header: no text".to_string()));
}

#[test]
fn chunks_are_read_part_by_part() {
    assert!(matches!(
        read_chunked(ChunkPart::Size, vec![9], line("1f;\r\n")),
        ChunkStep::Done(Err(e)) if e == "parse chunk size: invalid digit found in string"
    ));
    assert!(matches!(
        read_chunked(ChunkPart::Size, vec![9], line(" 1f \r\n")),
        ChunkStep::More(ChunkPart::Data(31), b) if b == vec![9]
    ));
    assert!(matches!(
        read_chunked(ChunkPart::Data(2), vec![9], bytes(&[1, 2])),
        ChunkStep::More(ChunkPart::End, b) if b == vec![9, 1, 2]
    ));
    assert!(matches!(
        read_chunked(ChunkPart::End, vec![9], bytes(b"\r\n")),
        ChunkStep::More(ChunkPart::Size, b) if b == vec![9]
    ));
    assert!(matches!(
        read_chunked(ChunkPart::Size, vec![9], line("0\r\n")),
        ChunkStep::Done(Ok(b)) if b == vec![9]
    ));
    assert_eq!(ChunkPart::Size.wanted(), Want::Line);
    assert_eq!(ChunkPart::Data(7).wanted(), Want::Exact(7));
    assert_eq!(ChunkPart::End.wanted(), Want::Exact(2));
}

#[test]
fn headers_end_at_a_blank_line() {
    assert!(matches!(
        after_header("200".into(), false, true, "Transfer-Encoding: chunked\r\n"),
        Response::Headers(c, true) if c == "200"
    ));
    assert!(matches!(after_header("200".into(), false, false, "\r\n"), Response::Body(_)));
    assert!(matches!(
        after_header("200".into(), true, false, ""),
        Response::Chunks(_, ChunkPart::Size, b) if b.is_empty()
    ));
    assert!(matches!(after_header("200".into(), false, true, ""), Response::Body(_)));
}

#[test]
fn calls_are_written_as_json() {
    assert_eq!(
        jsonrpc_body("dumpWindowHierarchy", hierarchy_params()).unwrap(),
        br#"{"id":1,"jsonrpc":"2.0","method":"dumpWindowHierarchy","params":[false,50]}"#.to_vec()
    );
    assert_eq!(
        jsonrpc_body("takeScreenshot", screenshot_params()).unwrap(),
        br#"{"id":1,"jsonrpc":"2.0","method":"takeScreenshot","params":[0,80]}"#.to_vec()
    );
    assert_eq!(
        jsonrpc_body("m\"", vec![Scalar::Text("a\n".into()), Scalar::Flag(true)]).unwrap(),
        br#"{"id":1,"jsonrpc":"2.0","method":"m\"","params":["a\n",true]}"#.to_vec()
    );
}

fn call(raw: &str) -> Result<Member, String> {
    http_jsonrpc_with_timeout("m", Ok(raw.as_bytes().to_vec()))
}

#[test]
fn replies_are_judged() {
    assert!(matches!(call(r#"{"result":"x\ny"}"#), Ok(Member::Text(s)) if s == "x\ny"));
    for other in ["null", "true", "1.5", "[\"x\"]", "{\"x\":\"y\"}"] {
        assert!(matches!(call(&format!("{{\"result\":{other}}}")), Ok(Member::Other)));
    }
    assert!(matches!(call(r#"{"result":1,"error":null}"#), Err(e) if e == "m: unknown"));
    assert!(
        matches!(call(r#"{"error":{"message":"bad"},"result":"x"}"#), Err(e) if e == "m: bad")
    );
    assert!(matches!(call(r#"{"error":{"message":5}}"#), Err(e) if e == "m: unknown"));
    assert!(matches!(call(r#"{"id":1}"#), Err(e) if e == "m: missing result"));
    assert!(matches!(call("[1]"), Err(e) if e == "m: missing result"));
    assert!(matches!(call("{"), Err(e) if e.starts_with("json decode: EOF while parsing")));
    assert!(
        matches!(http_jsonrpc_with_timeout("m", Err("connect: no".into())), Err(e) if e == "connect: no")
    );
    assert!(matches!(
        jsonrpc_reply("k", &Member::Missing, &Member::Text("x".into()), Member::Missing),
        Err(e) if e == "k: missing result"
    ));
}

#[test]
fn only_the_right_answer_is_alive() {
    assert!(u2v3_alive(Ok(b"pong".to_vec())));
    assert!(u2v3_alive(Ok(b" pong\r\n".to_vec())));
    assert!(!u2v3_alive(Ok(b"ping".to_vec())));
    assert!(!u2v3_alive(Ok(b"pong\xff".to_vec())));
    assert!(!u2v3_alive(Err("HTTP 500".into())));
}

#[test]
fn forwards_are_matched_at_both_ends() {
    let list = "A tcp:9008 tcp:9008\nB tcp:9008 tcp:7912\n C\ttcp:9008  tcp:9008 extra\n";
    assert!(lists_forward(list, "A"));
    assert!(!lists_forward(list, "B"));
    assert!(lists_forward(list, "C"));
    assert!(!lists_forward("", "A"));
    assert!(u2v3_forward_matches(Some(list.as_bytes().to_vec()), "A"));
    assert!(!u2v3_forward_matches(None, "A"));
}

#[test]
fn fingerprints_need_a_hierarchy() {
    assert_eq!(
        probe_u2_hierarchy_hash(Ok(Member::Text("<é/>".into()))),
        Some(fnv1a_hash("<é/>".as_bytes()))
    );
    assert_eq!(probe_u2_hierarchy_hash(Ok(Member::Text(String::new()))), None);
    assert_eq!(probe_u2_hierarchy_hash(Ok(Member::Other)), None);
    assert_eq!(probe_u2_hierarchy_hash(Err("x".into())), None);
}

#[test]
fn a_server_is_reused_behind_our_forward() {
    assert_eq!(ensure_u2v3_running(false, None), Readiness::Launch);
    assert_eq!(ensure_u2v3_running(false, Some(true)), Readiness::Launch);
    assert_eq!(ensure_u2v3_running(true, None), Readiness::Ask);
    assert_eq!(ensure_u2v3_running(true, Some(true)), Readiness::Ready);
    assert_eq!(ensure_u2v3_running(true, Some(false)), Readiness::Launch);
}

fn session(process: Option<u64>, managed: &[&str], serial: Option<&str>) -> Session {
    Session {
        process,
        managed: managed.iter().map(|s| s.to_string()).collect(),
        serial: serial.map(str::to_string),
        next_id: 4,
    }
}

#[test]
fn only_the_current_server_is_stopped() {
    let mut s = session(Some(3), &[], None);
    assert!(!stop_u2v3_if_current(&mut s, 2));
    assert_eq!(s.process, Some(3));
    assert!(stop_u2v3_if_current(&mut s, 3));
    assert_eq!(s.process, None);
    assert!(!stop_u2v3_if_current(&mut s, 3));
    assert!(!stop_u2v3(&mut s));
    s.process = Some(9);
    assert!(stop_u2v3(&mut s));
    assert_eq!(s.process, None);
}

#[test]
fn foreign_forwards_stay() {
    let mut s = session(Some(1), &["A"], None);
    let (kill, command) = release_u2v3_resources(&mut s, "B");
    assert!(kill);
    assert_eq!(command, None);
    let (kill, command) = release_u2v3_resources(&mut s, "A");
    assert!(!kill);
    assert_eq!(
        command.unwrap(),
        vec!["-s", "A", "forward", "--remove", "tcp:9008"]
    );
}

#[test]
fn leaving_cleans_up_only_what_was_set_up() {
    let mut s = session(Some(1), &["A"], Some("A"));
    let (kill, commands) = shut_down(&mut s);
    assert!(kill);
    assert_eq!(
        commands,
        vec![
            vec!["-s", "A", "shell", "pkill -f com.wetest.uia2.Main 2>/dev/null; true"],
            vec!["-s", "A", "forward", "--remove", "tcp:9008"],
        ]
    );
    let mut s = session(None, &["A"], Some("B"));
    assert_eq!(shut_down(&mut s), (false, vec![]));
    let mut s = Session::new();
    assert_eq!(shut_down(&mut s), (false, vec![]));
    s.remember("Z");
    assert_eq!(s.serial.as_deref(), Some("Z"));
}

#[test]
fn a_launch_goes_through_its_stages() {
    let mut s = session(Some(1), &["A", "B"], None);
    let (stage, action) = begin_launch("C");
    assert!(
        matches!(&action, LaunchAction::Probe(a) if *a == ["-s", "C", "shell", "ls", "/data/local/tmp/u2.jar"])
    );
    let (stage, action) = launch_u2v3(stage, LaunchEvent::Probed(true), "C", &mut s);
    match action {
        LaunchAction::Forward(removals, forward) => {
            let serials: Vec<&str> = removals.iter().map(|r| r[1].as_str()).collect();
            assert_eq!(serials, vec!["A", "B", "C"]);
            assert_eq!(forward, vec!["-s", "C", "forward", "tcp:9008", "tcp:9008"]);
        }
        _ => panic!("no forward"),
    }
    let (stage, action) = launch_u2v3(stage, LaunchEvent::Forwarded(Ok(true)), "C", &mut s);
    assert_eq!(s.managed, vec!["A", "B", "C"]);
    assert_eq!(s.process, None);
    match action {
        LaunchAction::Start(kill, clean, pause, start) => {
            assert!(kill);
            assert_eq!(clean[3], "pkill -f com.wetest.uia2.Main 2>/dev/null; true");
            assert_eq!(pause, 300);
            assert_eq!(
                start,
                vec![
                    "-s",
                    "C",
                    "shell",
                    "CLASSPATH=/data/local/tmp/u2.jar app_process / com.wetest.uia2.Main -p 9008",
                ]
            );
        }
        _ => panic!("no start"),
    }
    let (stage, action) = launch_u2v3(stage, LaunchEvent::Started(Ok(7)), "C", &mut s);
    assert!(matches!(action, LaunchAction::Clock));
    assert_eq!(stage, LaunchStage::Waiting(4, 10_000_000_007));
    assert_eq!((s.process, s.next_id), (Some(4), 5));
    let (stage, action) = launch_u2v3(stage, LaunchEvent::Clock(8), "C", &mut s);
    assert!(matches!(action, LaunchAction::Ask));
    let (stage, action) = launch_u2v3(stage, LaunchEvent::Asked(false), "C", &mut s);
    assert!(matches!(action, LaunchAction::Sleep(100)));
    let (late, action) = launch_u2v3(stage, LaunchEvent::Asked(true), "C", &mut s);
    assert!(matches!(action, LaunchAction::Finish(false, Ok(()))));
    assert_eq!(late, LaunchStage::Closed);
    let (_, action) = launch_u2v3(stage, LaunchEvent::Clock(10_000_000_007), "C", &mut s);
    assert!(matches!(action, LaunchAction::Finish(true, Err(e))
        if e == "/data/local/tmp/u2.jar failed to start — server did not answer /ping in 10s"));
    assert_eq!(s.process, None);
}

#[test]
fn a_launch_fails_with_its_reason() {
    let mut s = session(None, &[], None);
    let reason = |stage, event, s: &mut Session| match launch_u2v3(stage, event, "C", s).1 {
        LaunchAction::Finish(false, Err(e)) => e,
        _ => String::new(),
    };
    assert_eq!(
        reason(LaunchStage::Probing, LaunchEvent::Probed(false), &mut s),
        "/data/local/tmp/u2.jar not found on device — run 'python -m uiautomator2 init' to install"
    );
    assert_eq!(
        reason(LaunchStage::Forwarding, LaunchEvent::Forwarded(Err("x".into())), &mut s),
        "adb not found: x"
    );
    assert_eq!(
        reason(LaunchStage::Forwarding, LaunchEvent::Forwarded(Ok(false)), &mut s),
        "adb forward (tcp:9008) failed — port may be in use"
    );
    assert_eq!(
        reason(LaunchStage::Starting, LaunchEvent::Started(Err("x".into())), &mut s),
        "spawn uiautomator: x"
    );
    assert!(s.managed.is_empty());
    s.process = Some(9);
    assert_eq!(
        reason(LaunchStage::Waiting(4, 5), LaunchEvent::Clock(5), &mut s),
        "/data/local/tmp/u2.jar failed to start — server did not answer /ping in 10s"
    );
    assert_eq!(s.process, Some(9));
}

#[test]
fn a_device_is_enlisted_once() {
    let mut s = session(None, &["C"], None);
    launch_u2v3(LaunchStage::Forwarding, LaunchEvent::Forwarded(Ok(true)), "C", &mut s);
    assert_eq!(s.managed, vec!["C"]);
}

#[test]
fn screenshots_are_decoded_from_base64() {
    assert_eq!(without_white(" a\n b\u{3000}c"), "abc");
    assert_eq!(
        decode_screenshot(Ok(Member::Text("aGVs\nbG8=\r\n".into()))),
        Some(b"hello".to_vec())
    );
    assert_eq!(decode_screenshot(Ok(Member::Text("aGVsbG8".into()))), None);
    assert_eq!(decode_screenshot(Ok(Member::Text(" \n".into()))), None);
    assert_eq!(decode_screenshot(Ok(Member::Other)), None);
    assert_eq!(decode_screenshot(Err("x".into())), None);
}

#[test]
fn a_screenshot_falls_back_to_printing() {
    let out = || Some(Ok(Ended { success: true, stdout: vec![7] }));
    assert!(matches!(fetch_u2_screenshot(0, None, None), ShotStep::Ask));
    assert!(matches!(
        fetch_u2_screenshot(0, Some(Some(vec![1])), None),
        ShotStep::Done(Ok((b, ShotSource::JsonRpc))) if b == vec![1]
    ));
    assert!(matches!(fetch_u2_screenshot(0, Some(None), None), ShotStep::Print));
    assert!(matches!(
        fetch_u2_screenshot(0, Some(None), out()),
        ShotStep::Done(Ok((b, ShotSource::Adb))) if b == vec![7]
    ));
    assert!(matches!(fetch_u2_screenshot(1, None, None), ShotStep::Print));
    assert!(matches!(
        fetch_u2_screenshot(1, None, out()),
        ShotStep::Done(Ok((b, ShotSource::Adb))) if b == vec![7]
    ));
    assert!(matches!(
        fetch_u2_screenshot(1, None, Some(Err("x".into()))),
        ShotStep::Done(Err(e)) if e == "screencap failed: x"
    ));
}

#[test]
fn an_empty_hierarchy_is_asked_for_again() {
    let text = |s: &str| Ok(Member::Text(s.to_string()));
    assert!(matches!(
        fetch_u2_hierarchy(0, text("<a/>")),
        HierarchyStep::Done(Ok(b)) if b == b"<a/>".to_vec()
    ));
    assert!(matches!(fetch_u2_hierarchy(0, text("")), HierarchyStep::Again(800)));
    assert!(matches!(fetch_u2_hierarchy(1, text("")), HierarchyStep::Again(800)));
    assert!(matches!(
        fetch_u2_hierarchy(2, text("<hierarchy/>")),
        HierarchyStep::Done(Ok(b)) if b == b"<hierarchy/>".to_vec()
    ));
    assert!(matches!(
        fetch_u2_hierarchy(2, text("")),
        HierarchyStep::Done(Err(e)) if e == "dumpWindowHierarchy returned empty hierarchy"
    ));
    assert!(matches!(
        fetch_u2_hierarchy(0, Ok(Member::Other)),
        HierarchyStep::Done(Err(e)) if e == "dumpWindowHierarchy: not a string"
    ));
    assert!(matches!(
        fetch_u2_hierarchy(0, Err("m: bad".into())),
        HierarchyStep::Done(Err(e)) if e == "m: bad"
    ));
}
