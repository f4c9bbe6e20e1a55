use tools::artifacts::{encode_metadata, PatchAck, TusError};
use tools::upload::{
    after_chunk, after_realign, check_upload_file, choose_content_type, classify_send_err, classify_send_error, create_reply,
    head_reply, next_chunk_len, parse_offset, parse_u64, patch_reply, resume_decision, resumed_offset,
    upload_description, upload_metadata, ChunkStep, ResumeDecision, StoredUpload,
};

fn s(x: &str) -> String {
    x.to_string()
}

#[test]
fn metadata_is_base64_encoded_and_sorted() {
    let m = vec![(s("workspace"), s("ws_42")), (s("filename"), s("hello.csv"))];
    let encoded = encode_metadata(&m);
    assert!(encoded.starts_with("filename "));
    assert!(encoded.contains(",workspace "));
}

#[test]
fn metadata_drops_invalid_keys() {
    let m = vec![(s("has space"), s("v")), (s("ok"), s("v")), (s("has,comma"), s("v"))];
    let encoded = encode_metadata(&m);
    assert!(encoded.starts_with("ok "));
    assert!(!encoded.contains("has space"));
    assert!(!encoded.contains("has,comma"));
}

#[test]
fn parse_u64_like_std() {
    assert_eq!(parse_u64("0"), Some(0));
    assert_eq!(parse_u64("+42"), Some(42));
    assert_eq!(parse_u64("007"), Some(7));
    assert_eq!(parse_u64("18446744073709551615"), Some(u64::MAX));
    assert_eq!(parse_u64("18446744073709551616"), None);
    assert_eq!(parse_u64("99999999999999999999x"), None);
    assert_eq!(parse_u64(""), None);
    assert_eq!(parse_u64("+"), None);
    assert_eq!(parse_u64("-1"), None);
    assert_eq!(parse_u64(" 1"), None);
    for x in ["0", "+42", "007", "18446744073709551615", "", "+", "-1", "1e3"] {
        assert_eq!(parse_u64(x), x.parse::<u64>().ok(), "{x}");
    }
}

#[test]
fn offset_header_required() {
    assert_eq!(parse_offset(Some("1024")).unwrap(), 1024);
    match parse_offset(None) {
        Err(TusError::Permanent(m)) => assert_eq!(m, "response missing or invalid Upload-Offset"),
        other => panic!("unexpected {other:?}"),
    }
    assert!(matches!(parse_offset(Some("abc")), Err(TusError::Permanent(_))));
}

#[test]
fn creation_replies() {
    let url = "https://cp.example.com/uploads";
    assert_eq!(create_reply(url, 201, "201 Created", Some("/files/abc"), "").unwrap(), "https://cp.example.com/files/abc");
    match create_reply(url, 201, "201 Created", None, "") {
        Err(TusError::Permanent(m)) => assert_eq!(m, "creation response missing Location"),
        other => panic!("unexpected {other:?}"),
    }
    match create_reply(url, 503, "503 Service Unavailable", None, "busy") {
        Err(TusError::Transient(m)) => assert_eq!(m, "create returned 503 Service Unavailable: busy"),
        other => panic!("unexpected {other:?}"),
    }
    match create_reply(url, 400, "400 Bad Request", None, "no") {
        Err(TusError::Permanent(m)) => assert_eq!(m, "create returned 400 Bad Request: no"),
        other => panic!("unexpected {other:?}"),
    }
}

#[test]
fn offset_query_replies() {
    assert_eq!(head_reply(200, "200 OK", Some("10"), "").unwrap(), 10);
    assert_eq!(head_reply(204, "204 No Content", Some("11"), "").unwrap(), 11);
    match head_reply(410, "410 Gone", Some("1"), "") {
        Err(TusError::Permanent(m)) => assert_eq!(m, "upload no longer exists (410 Gone)"),
        other => panic!("unexpected {other:?}"),
    }
    match head_reply(500, "500 Internal Server Error", None, "x") {
        Err(TusError::Transient(m)) => assert_eq!(m, "HEAD returned 500 Internal Server Error"),
        other => panic!("unexpected {other:?}"),
    }
    match head_reply(403, "403 Forbidden", None, "denied") {
        Err(TusError::Permanent(m)) => assert_eq!(m, "HEAD returned 403 Forbidden: denied"),
        other => panic!("unexpected {other:?}"),
    }
}

#[test]
fn chunk_replies() {
    assert_eq!(patch_reply(204, "204 No Content", Some("2048"), 1024, "").unwrap().upload_offset, 2048);
    assert!(matches!(
        patch_reply(409, "409 Conflict", Some("512"), 1024, ""),
        Err(TusError::Mismatch { server: 512, client: 1024 })
    ));
    assert!(matches!(
        patch_reply(409, "409 Conflict", None, 1024, ""),
        Err(TusError::Mismatch { server: 1024, client: 1024 })
    ));
    match patch_reply(502, "502 Bad Gateway", None, 0, "oops") {
        Err(TusError::Transient(m)) => assert_eq!(m, "PATCH returned 502 Bad Gateway: oops"),
        other => panic!("unexpected {other:?}"),
    }
    match patch_reply(413, "413 Payload Too Large", None, 0, "big") {
        Err(TusError::Permanent(m)) => assert_eq!(m, "PATCH returned 413 Payload Too Large: big"),
        other => panic!("unexpected {other:?}"),
    }
}

#[test]
fn send_errors_by_kind() {
    assert!(matches!(classify_send_error(true, "timed out"), TusError::Transient(m) if m == "send error: timed out"));
    assert!(matches!(classify_send_error(false, "bad"), TusError::Permanent(m) if m == "send error: bad"));
    assert!(matches!(classify_send_err(true, false, false, "t"), TusError::Transient(m) if m == "send error: t"));
    assert!(matches!(classify_send_err(false, true, false, "c"), TusError::Transient(m) if m == "send error: c"));
    assert!(matches!(classify_send_err(false, false, true, "r"), TusError::Transient(m) if m == "send error: r"));
    assert!(matches!(classify_send_err(false, false, false, "x"), TusError::Permanent(m) if m == "send error: x"));
}

fn stored(status: &str, size: u64, sha: &str) -> StoredUpload {
    StoredUpload { status: s(status), total_size: size, file_sha256: s(sha), location: s("loc"), bytes_sent: 7 }
}

#[test]
fn resume_decisions() {
    assert!(matches!(resume_decision(None, 10, "h"), ResumeDecision::Create));
    let done = stored("completed", 10, "other");
    assert!(matches!(resume_decision(Some(&done), 10, "h"), ResumeDecision::Completed { bytes_sent: 7, .. }));
    let going = stored("in_progress", 10, "h");
    assert!(matches!(resume_decision(Some(&going), 10, "h"), ResumeDecision::Resume { .. }));
    assert!(matches!(resume_decision(Some(&going), 10, "x"), ResumeDecision::Create));
    assert!(matches!(resume_decision(Some(&going), 11, "h"), ResumeDecision::Create));
    let failed = stored("failed", 10, "h");
    assert!(matches!(resume_decision(Some(&failed), 10, "h"), ResumeDecision::Create));
    assert_eq!(resumed_offset(20, 10), 10);
    assert_eq!(resumed_offset(4, 10), 4);
}

#[test]
fn creation_metadata_adds_name_and_digest() {
    let user = vec![(s("filename"), s("spoof")), (s("k"), s("v"))];
    let meta = upload_metadata(Some(&user), "/tmp/data/report.csv", "abc");
    assert_eq!(meta, vec![(s("k"), s("v")), (s("filename"), s("report.csv")), (s("sha256"), s("abc"))]);
    let bare = upload_metadata(None, "/", "d");
    assert_eq!(bare, vec![(s("filename"), s("artifact")), (s("sha256"), s("d"))]);
}

#[test]
fn chunk_loop_steps() {
    assert_eq!(next_chunk_len(0, 10, 4), 4);
    assert_eq!(next_chunk_len(8, 10, 4), 2);
    assert_eq!(next_chunk_len(0, 10, 0), 1);
    assert!(matches!(after_chunk(Ok(PatchAck { upload_offset: 9 })), ChunkStep::Advance(9)));
    assert!(matches!(after_chunk(Err(TusError::Mismatch { server: 1, client: 2 })), ChunkStep::Realign));
    match after_chunk(Err(TusError::Permanent(s("nope")))) {
        ChunkStep::Fail { failure, message } => {
            assert_eq!(failure, "permanent TUS error: nope");
            assert_eq!(message, "upload failed: permanent TUS error: nope");
        },
        other => panic!("unexpected {other:?}"),
    }
    assert_eq!(after_realign(Ok(5)).unwrap(), 5);
    let (failure, message) = after_realign(Err(TusError::Transient(s("down")))).unwrap_err();
    assert_eq!(failure, "transient TUS error: down");
    assert_eq!(message, "HEAD after mismatch failed: transient TUS error: down");
}

#[test]
fn upload_file_checks() {
    assert!(check_upload_file("/a", true, 5, 10).is_ok());
    assert_eq!(check_upload_file("/a", false, 5, 10).unwrap_err(), "'/a' is not a regular file");
    assert_eq!(check_upload_file("/a", true, 0, 10).unwrap_err(), "'/a' is empty; refusing to upload");
    assert_eq!(
        check_upload_file("/a", true, 11, 10).unwrap_err(),
        "'/a' is 11 bytes, exceeds artifacts.max_size_bytes (10 bytes)"
    );
}

#[test]
fn content_type_choice() {
    assert_eq!(choose_content_type(Some("video/mp4"), "/x.csv"), "video/mp4");
    assert_eq!(choose_content_type(None, "/x.csv"), "text/csv");
    assert_eq!(choose_content_type(None, "/x.unknownext"), "application/octet-stream");
}

#[test]
fn description_lists_sorted_types() {
    let d = upload_description(&vec![s("text/csv"), s("image/png"), s("application/pdf")], 1000);
    assert!(d.ends_with("Accepted types: application/pdf, image/png, text/csv. Max size: 1000 bytes."));
}
