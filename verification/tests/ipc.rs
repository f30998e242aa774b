use syncread::ipc::{
    encode_command, get_property_args, parse_response, paused_from, playlist_pos_from,
    position_ms_from, seek_args, set_pause_args, word_args, IpcSession, IpcStep, IpcValue,
    PendingCommand,
};

#[test]
fn test_encode_command_text() {
    let args = set_pause_args(false);
    let line = encode_command(&args, 3).unwrap();
    assert_eq!(line, "{\"command\":[\"set_property\",\"pause\",false],\"request_id\":3}");

    let args = seek_args(-30_000);
    let line = encode_command(&args, 4).unwrap();
    assert_eq!(line, "{\"command\":[\"seek\",-30.000],\"request_id\":4}");

    let args = word_args("playlist-next");
    let line = encode_command(&args, 5).unwrap();
    assert_eq!(line, "{\"command\":[\"playlist-next\"],\"request_id\":5}");
}

#[test]
fn test_parse_response_fields_any_order() {
    let r = parse_response("{\"error\":\"success\",\"data\":true,\"request_id\":1}").unwrap();
    assert_eq!(r.error, "success");
    assert_eq!(r.data, Some(IpcValue::Bool(true)));
    assert_eq!(r.request_id, Some(1));

    let r = parse_response("{\"request_id\":2,\"error\":\"success\",\"data\":7}").unwrap();
    assert_eq!(r.request_id, Some(2));
    assert_eq!(r.data, Some(IpcValue::Int(7)));

    let r = parse_response("{}").unwrap();
    assert_eq!(r.error, "");
    assert_eq!(r.data, None);
    assert_eq!(r.request_id, None);
}

#[test]
fn test_parse_response_numbers() {
    // A fractional number reads as milliseconds, truncated past the third digit.
    let r = parse_response("{\"data\":30.028999,\"request_id\":9}").unwrap();
    assert_eq!(r.data, Some(IpcValue::Time(30_028)));
    assert_eq!(position_ms_from(&r), 30_028);

    let r = parse_response("{\"data\":-1,\"request_id\":9}").unwrap();
    assert_eq!(r.data, Some(IpcValue::Int(-1)));
    assert_eq!(playlist_pos_from(&r), -1);

    let r = parse_response("{\"data\":0.5}").unwrap();
    assert_eq!(r.data, Some(IpcValue::Time(500)));
}

#[test]
fn test_parse_response_rejects_malformed() {
    assert_eq!(parse_response(""), None);
    assert_eq!(parse_response("{\"event\":\"property-change\"}"), None);
    assert_eq!(parse_response("{\"error\":\"x\",\"error\":\"y\"}"), None);
    assert_eq!(parse_response("{\"error\":\"x\"} trailing"), None);
}

#[test]
fn test_getter_defaults() {
    let r = parse_response("{\"error\":\"success\",\"request_id\":1}").unwrap();
    assert_eq!(playlist_pos_from(&r), 0);
    assert_eq!(position_ms_from(&r), 0);
    assert!(paused_from(&r));

    let r = parse_response("{\"data\":false,\"request_id\":1}").unwrap();
    assert!(!paused_from(&r));
    let r = parse_response("{\"data\":2,\"request_id\":1}").unwrap();
    assert_eq!(playlist_pos_from(&r), 2);
    assert_eq!(position_ms_from(&r), 2_000);
}

#[test]
fn test_command_matcher_ignores_unrelated_responses() {
    let mut pc = PendingCommand::new(7);
    // Blank and malformed lines are skipped.
    assert_eq!(pc.offer_line("\n"), IpcStep::Ignored);
    assert_eq!(pc.offer_line("garbage"), IpcStep::Ignored);
    // A response to another in-flight request is skipped too.
    assert_eq!(
        pc.offer_line("{\"error\":\"success\",\"data\":1,\"request_id\":6}\n"),
        IpcStep::Ignored
    );
    // Only the response with the matching id is returned.
    match pc.offer_line("{\"error\":\"success\",\"data\":1,\"request_id\":7}\n") {
        IpcStep::Matched(resp) => {
            assert_eq!(resp.request_id, Some(7));
            assert_eq!(resp.data, Some(IpcValue::Int(1)));
        }
        other => panic!("expected a match, got {:?}", other),
    }
}

#[test]
fn test_command_matcher_exhausts_after_ten_lines() {
    let mut pc = PendingCommand::new(7);
    for _ in 0..10 {
        assert_eq!(pc.offer_line(""), IpcStep::Ignored);
    }
    assert_eq!(pc.offer_line("{\"request_id\":7}"), IpcStep::Exhausted);
}

#[test]
fn test_session_assigns_increasing_ids() {
    let mut session = IpcSession::new();
    let (line1, pc1) = session.begin_command(&get_property_args("pause")).unwrap();
    let (line2, _pc2) = session.begin_command(&get_property_args("pause")).unwrap();
    assert!(line1.ends_with("\"request_id\":1}"));
    assert!(line2.ends_with("\"request_id\":2}"));
    let mut pc1 = pc1;
    match pc1.offer_line("{\"error\":\"success\",\"data\":true,\"request_id\":1}") {
        IpcStep::Matched(resp) => assert!(paused_from(&resp)),
        other => panic!("expected a match, got {:?}", other),
    }
}

#[test]
fn test_parse_response_escaped_error_text() {
    let r = parse_response("{\"error\":\"bad \\\"name\\\" given\",\"request_id\":3}").unwrap();
    assert_eq!(r.error, "bad \"name\" given");
    assert_eq!(r.request_id, Some(3));
}
