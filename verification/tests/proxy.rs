use maestro_llamacpp::admission::Decision;
use maestro_llamacpp::catalog::flags::Flags;
use maestro_llamacpp::catalog::{Entry, RelativePath, Residency};
use maestro_llamacpp::launch::Failure;
use maestro_llamacpp::memory::Measurement;
use maestro_llamacpp::proxy::answer::{
    catalogue, framing, generic_body, known, not_found, plan, properties, unloaded, CatalogueRow, Plan,
};
use maestro_llamacpp::proxy::body::{model_of, read as read_body, MAX_BODY_BYTES};
use maestro_llamacpp::proxy::endpoint::Endpoint;
use maestro_llamacpp::proxy::head::read::{
    read as read_head, timed_out, HeadReader, MAX_HEADERS, MAX_HEAD_BYTES,
};
use maestro_llamacpp::proxy::head::{parse, Head, Length};
use maestro_llamacpp::proxy::refusal::{Cause, Refusal};
use maestro_llamacpp::proxy::reply::{listing, reason, refuse};
use maestro_llamacpp::proxy::slots::{
    after_decision, contended, gibibytes, ready_line, reached_first, unloading_line, RoomStep,
};
use maestro_llamacpp::time::Span;

fn lines(lines: &[&str]) -> Vec<String> {
    lines.iter().map(|line| (*line).to_owned()).collect()
}

const UPSTREAM: &str = "127.0.0.1:41234";

fn head_of(path: &str) -> Head {
    parse(&lines(&[&format!("POST {path} HTTP/1.1"), "Host: 127.0.0.1:8080"]))
        .expect("a well-formed head")
}

fn body_model(body: &str) -> Result<String, Failure> {
    read_body(body.as_bytes(), body.len()).map(|(_, model)| model)
}

#[test]
fn a_body_names_the_model_it_carries() {
    assert_eq!(
        body_model(r#"{"model":"qwen38","messages":[]}"#).expect("a routed body"),
        "qwen38"
    );
}

#[test]
fn the_bytes_come_back_as_they_arrived() {
    let body = r#"{"model":"qwen38","messages":[]}"#;
    let (bytes, _) = read_body(body.as_bytes(), body.len()).expect("a routed body");

    assert_eq!(
        bytes,
        body.as_bytes(),
        "forwarded as received: the router is a relay"
    );
}

#[test]
fn only_the_top_level_model_key_routes_the_request() {
    let cases = [
        (
            r#"{"messages":[{"role":"user","content":"my model is gemma3"}],"model":"qwen38"}"#,
            "a scan for the word would have found the one in the conversation",
        ),
        (
            r#"{"messages":[{"role":"user","content":"say \"model\": \"gemma3\""}],"model":"qwen38"}"#,
            "a scan that did not track escapes would have found the escaped one",
        ),
        (
            r#"{"response_format":{"model":"json"},"model":"qwen38"}"#,
            "a scan that did not track depth would have found the decoy",
        ),
    ];

    for (body, defeated) in cases {
        assert_eq!(
            body_model(body).expect("a routed body"),
            "qwen38",
            "{defeated}: {body}"
        );
    }
}

#[test]
fn a_body_naming_no_model_is_refused_and_says_what_to_do() {
    let refusal = body_model(r#"{"messages":[]}"#)
        .expect_err("the generic endpoint has nothing else to route on");
    let text = refusal.message().to_owned();

    assert!(
        text.contains("model") && text.contains("/models/"),
        "the refusal says what is missing and names the endpoint that \
         needs no such field: {text}"
    );
}

#[test]
fn a_body_that_is_not_json_is_refused_and_says_so() {
    let refusal = body_model("not json at all").expect_err("a body that cannot be read");

    assert!(
        refusal.message().contains("JSON"),
        "the refusal says what was wrong with it: {refusal:?}"
    );
}

#[test]
fn a_declared_length_over_the_bound_is_refused_before_it_is_read() {
    let refusal = read_body(&[], MAX_BODY_BYTES + 1)
        .expect_err("a bad client cannot make the router allocate");

    assert!(
        refusal.message().contains(&MAX_BODY_BYTES.to_string()),
        "the refusal names the limit, so the reader knows what to change: {refusal:?}"
    );
}

#[test]
fn a_body_shorter_than_it_declared_is_refused_rather_than_parsed() {
    let body = r#"{"model":"qwen38"}"#;
    read_body(body.as_bytes(), body.len() + 10)
        .expect_err("a truncated body is not a body, whatever arrived of it");
}

#[test]
fn a_model_field_that_is_not_a_string_routes_nothing() {
    assert!(model_of(br#"{"model":3}"#).is_err());
    assert_eq!(model_of(br#"{"model":"a"}"#).expect("routed"), "a");
}

#[test]
fn a_models_path_names_the_model_and_what_follows_it() {
    assert_eq!(
        Endpoint::of("/models/gemma3/v1/chat/completions").expect("a dedicated endpoint"),
        Endpoint::Dedicated {
            id: "gemma3".to_owned(),
            suffix: "/v1/chat/completions".to_owned(),
        }
    );
}

#[test]
fn a_v1_path_is_generic_and_keeps_the_whole_path() {
    assert_eq!(
        Endpoint::of("/v1/chat/completions").expect("the generic endpoint"),
        Endpoint::Generic {
            suffix: "/v1/chat/completions".to_owned(),
        },
        "the generic endpoint strips no prefix"
    );
}

#[test]
fn the_models_listing_is_answered_by_the_router_itself() {
    for path in ["/v1/models", "/v1/models/", "/v1/models?limit=100"] {
        assert_eq!(
            Endpoint::of(path).expect("a listing"),
            Endpoint::Listing,
            "'{path}' lists the catalog, which needs no child"
        );
    }
}

#[test]
fn a_query_stays_on_a_path_a_child_answers() {
    let dedicated = Endpoint::of("/models/gemma3/v1/chat/completions?x=1").expect("dedicated");

    assert_eq!(dedicated.suffix(), "/v1/chat/completions?x=1");
}

#[test]
fn only_the_methods_a_model_can_be_asked_with_are_allowed() {
    let dedicated = Endpoint::of("/models/gemma3/v1/chat/completions").expect("dedicated");

    assert!(dedicated.allows("POST") && dedicated.allows("GET"));
    assert!(
        !dedicated.allows("DELETE") && !dedicated.allows("HEAD"),
        "a method that could not be an inference is refused before a \
         child is started for it"
    );
    assert!(
        Endpoint::Listing.allows("HEAD") && !Endpoint::Listing.allows("POST"),
        "the listing is read, never asked"
    );
}

#[test]
fn a_models_path_with_nothing_after_the_identifier_names_the_entry_itself() {
    for path in ["/models/gemma3", "/models/gemma3/"] {
        assert_eq!(
            Endpoint::of(path).expect("the entry itself"),
            Endpoint::Residency {
                id: "gemma3".to_owned()
            },
            "'{path}' names the entry and nothing under it"
        );
    }
    assert_eq!(
        Endpoint::Residency {
            id: "gemma3".to_owned()
        }
        .allowed(),
        "DELETE, OPTIONS",
    );
}

#[test]
fn a_models_path_naming_no_entry_at_all_is_still_refused() {
    let refusal =
        Endpoint::of("/models//v1/echo").expect_err("an empty identifier asks for nothing");

    assert!(
        refusal.text().contains("/models/"),
        "the refusal names the shape it wanted: {}",
        refusal.text()
    );
}

#[test]
fn a_path_that_is_neither_shape_is_refused_naming_both() {
    let refusal =
        Endpoint::of("/health").expect_err("the router serves two shapes and no others");
    let text = refusal.text();

    assert!(
        text.contains("/models/") && text.contains("/v1/"),
        "the refusal names both shapes the router serves: {text}"
    );
}

#[test]
fn the_suffix_is_what_the_child_is_asked_for() {
    let dedicated = Endpoint::of("/models/gemma3/v1/chat/completions").expect("dedicated");
    let generic = Endpoint::of("/v1/chat/completions").expect("generic");

    assert_eq!(dedicated.suffix(), "/v1/chat/completions");
    assert_eq!(
        generic.suffix(),
        "/v1/chat/completions",
        "both reach the child at the same path by different routes"
    );
}

#[test]
fn the_router_answers_its_own_shapes() {
    assert_eq!(Endpoint::of("/models").expect("the catalogue"), Endpoint::Catalogue);
    assert_eq!(Endpoint::of("/props").expect("the properties"), Endpoint::Properties);
}

#[test]
fn a_head_carries_the_endpoint_its_path_addressed() {
    let head = head_of("/models/gemma3/v1/chat/completions");

    assert_eq!(
        head.endpoint,
        Endpoint::Dedicated {
            id: "gemma3".to_owned(),
            suffix: "/v1/chat/completions".to_owned(),
        },
        "which shape a path addressed is resolved at parse time"
    );
    assert_eq!(head.method, "POST", "the method is passed through");
}

#[test]
fn a_path_that_is_no_shape_the_router_serves_is_refused() {
    let refusal = parse(&lines(&["POST /health HTTP/1.1"]))
        .expect_err("the router serves two shapes and no others");

    assert!(
        refusal.text().contains("/models/"),
        "the refusal says what shapes were expected: {}",
        refusal.text()
    );
}

#[test]
fn an_empty_head_is_refused_rather_than_assumed() {
    parse(&[]).expect_err("a head with no request line names nothing");
}

#[test]
fn content_length_is_read_whatever_its_spelling() {
    let head = parse(&lines(&[
        "POST /models/gemma3/v1/chat/completions HTTP/1.1",
        "content-length: 42",
    ]))
    .expect("a well-formed head");

    assert_eq!(
        head.length,
        Length::Given(42),
        "a client is entitled to send a lowercase header name"
    );
}

#[test]
fn a_head_without_a_length_says_so_rather_than_declaring_nothing() {
    assert_eq!(head_of("/models/gemma3/v1/echo").length, Length::Absent);
}

#[test]
fn a_length_that_will_not_parse_is_kept_rather_than_defaulted() {
    for value in ["abc", "-1", ""] {
        let head = parse(&lines(&[
            "POST /v1/chat/completions HTTP/1.1",
            &format!("Content-Length: {value}"),
        ]))
        .expect("a head the router can still refuse deliberately");

        assert_eq!(head.length, Length::Malformed(value.to_owned()));
    }
}

#[test]
fn chunked_transfer_encoding_is_detected() {
    let head = parse(&lines(&[
        "POST /models/gemma3/v1/chat/completions HTTP/1.1",
        "Transfer-Encoding: chunked",
    ]))
    .expect("a well-formed head");

    assert!(
        head.chunked,
        "detected here so the caller can refuse it rather than mangle a body"
    );
    assert!(
        !head_of("/models/gemma3/v1/echo").chunked,
        "and absent when it was not announced"
    );
}

#[test]
fn an_expectation_is_read_here_and_does_not_travel_on() {
    let head = parse(&lines(&[
        "POST /models/gemma3/v1/chat/completions HTTP/1.1",
        "Expect: 100-Continue",
    ]))
    .expect("a well-formed head");

    assert!(
        head.expects_continue,
        "the caller is holding its body back, whatever the case of the value"
    );
    assert!(
        !head.rewrite(UPSTREAM).to_lowercase().contains("expect"),
        "the router meets the expectation itself:\n{}",
        head.rewrite(UPSTREAM)
    );
    assert!(
        !head_of("/models/gemma3/v1/echo").expects_continue,
        "and absent when nothing was asked"
    );
}

#[test]
fn the_rewritten_head_keeps_the_method_and_carries_the_suffix() {
    let rewritten = head_of("/models/gemma3/v1/chat/completions").rewrite(UPSTREAM);

    assert!(
        rewritten.starts_with("POST /v1/chat/completions HTTP/1.1\r\n"),
        "the child is asked for the path without the prefix:\n{rewritten}"
    );
}

#[test]
fn the_rewritten_head_points_at_the_child_and_asks_it_to_close() {
    let rewritten = head_of("/models/gemma3/v1/chat/completions").rewrite(UPSTREAM);

    assert!(
        rewritten.contains("Host: 127.0.0.1:41234\r\n"),
        "Host names the child, not the router:\n{rewritten}"
    );
    assert!(
        rewritten.contains("Connection: close\r\n"),
        "so the response ends at end-of-file:\n{rewritten}"
    );
    assert!(
        rewritten.ends_with("\r\n\r\n"),
        "and the head is terminated:\n{rewritten}"
    );
}

#[test]
fn the_rewritten_head_preserves_every_other_header_as_received() {
    let head = parse(&lines(&[
        "POST /models/gemma3/v1/chat/completions HTTP/1.1",
        "Host: 127.0.0.1:8080",
        "Content-Type: application/json",
        "Content-Length: 17",
        "X-Written-By: the test",
    ]))
    .expect("a well-formed head");
    let rewritten = head.rewrite(UPSTREAM);

    assert!(rewritten.contains("Content-Type: application/json\r\n"), "{rewritten}");
    assert!(rewritten.contains("X-Written-By: the test\r\n"), "{rewritten}");
    assert!(rewritten.contains("Content-Length: 17\r\n"), "{rewritten}");
}

#[test]
fn the_original_host_and_connection_headers_do_not_survive() {
    let head = parse(&lines(&[
        "POST /models/gemma3/v1/chat/completions HTTP/1.1",
        "Host: 127.0.0.1:8080",
        "connection: keep-alive",
    ]))
    .expect("a well-formed head");
    let rewritten = head.rewrite(UPSTREAM);

    assert!(!rewritten.contains("127.0.0.1:8080"), "{rewritten}");
    assert!(!rewritten.to_lowercase().contains("keep-alive"), "{rewritten}");
}

#[test]
fn a_head_within_the_bounds_is_read_up_to_the_blank_line() {
    let source = b"POST /models/gemma3/v1/chat/completions HTTP/1.1\r\n\
          Host: localhost\r\n\
          \r\n\
          {\"model\":\"gemma3\"}"
        .to_vec();

    let head = read_head(&source).expect("a head that ends");

    assert_eq!(head.len(), 2, "the request line and one header: {head:?}");
    assert!(
        head[0].starts_with("POST /models/gemma3/"),
        "and nothing of the body: {head:?}"
    );
}

#[test]
fn a_head_larger_than_the_bound_is_refused_rather_than_allocated_for() {
    let padding = "x".repeat(MAX_HEAD_BYTES);
    let source =
        format!("GET /models/gemma3/v1/models HTTP/1.1\r\nX-Big: {padding}\r\n\r\n").into_bytes();

    let refusal = read_head(&source).expect_err("a bad client cannot make the router allocate");

    assert_eq!(
        refusal.cause(),
        Cause::HeadTooLarge,
        "and is told the head was the problem, not the request"
    );
}

#[test]
fn more_headers_than_the_bound_are_refused() {
    let mut text = String::from("GET /models/gemma3/v1/models HTTP/1.1\r\n");
    for index in 0..=MAX_HEADERS {
        text.push_str(&format!("X-Count-{index}: \r\n"));
    }
    text.push_str("\r\n");

    read_head(&text.into_bytes())
        .expect_err("a head is a small thing, and one that is not is refused");
}

#[test]
fn a_connection_that_ends_before_the_blank_line_is_refused() {
    let source = b"GET /models/gemma3/v1/models HTTP/1.1\r\n".to_vec();

    let refusal = read_head(&source).expect_err("a truncated head is not a head");

    assert_eq!(refusal.cause(), Cause::MalformedRequest);
}

#[test]
fn a_deadline_is_told_apart_from_a_peer_that_went_away() {
    for kind in [std::io::ErrorKind::WouldBlock, std::io::ErrorKind::TimedOut] {
        assert!(
            timed_out(&std::io::Error::from(kind)),
            "{kind:?} is what a read deadline looks like on one platform or the other"
        );
    }
    assert!(!timed_out(&std::io::Error::from(
        std::io::ErrorKind::ConnectionReset
    )));
}

#[test]
fn a_contended_room_is_told_when_to_retry_and_a_permanent_refusal_is_not() {
    let contended = Refusal::from(Failure::Contended("held by another request".to_owned()));
    let permanent = Refusal::from(Failure::Refused("more than the whole budget".to_owned()));

    assert_eq!(contended.cause(), Cause::RoomContended);
    assert!(contended.cause().retry_after_seconds().is_some());
    assert_eq!(permanent.cause(), Cause::NoRoom);
    assert!(permanent.cause().retry_after_seconds().is_none());
    assert_eq!(
        (contended.cause().status(), permanent.cause().status()),
        (503, 503),
        "both are the service declining for now, told apart by code"
    );
}

#[test]
fn a_launch_failure_keeps_its_prose_and_gains_a_code() {
    let refusal = Refusal::from(Failure::NotReady("entry 'x': 2 seconds".to_owned()));

    assert_eq!(refusal.cause(), Cause::StartupTimeout);
    assert_eq!(
        refusal.text(),
        "entry 'x': 2 seconds",
        "the wording is the launcher's own, untouched"
    );
    assert_eq!(
        Refusal::from(Failure::Unavailable(String::new())).cause(),
        Cause::ChildUnavailable
    );
}

#[test]
fn the_envelope_carries_the_message_the_family_and_the_code() {
    let refusal = Refusal::new(Cause::ModelNotFound, "no model called 'x'".to_owned());

    let parsed: serde_json::Value =
        serde_json::from_str(&refusal.envelope()).expect("the envelope is JSON");

    assert_eq!(parsed["error"]["message"], "no model called 'x'");
    assert_eq!(parsed["error"]["type"], "invalid_request_error");
    assert_eq!(parsed["error"]["code"], "model_not_found");
    assert_eq!(
        Refusal::new(Cause::ChildUnavailable, String::new()).envelope(),
        r#"{"error":{"code":"child_unavailable","message":"","type":"server_error"}}"#,
        "a failure on the router's side of the conversation is a server error"
    );
}

#[test]
fn every_status_a_cause_carries_has_a_reason_phrase_of_its_own() {
    for cause in [
        Cause::MalformedRequest,
        Cause::HeadTooLarge,
        Cause::RequestTimeout,
        Cause::PathNotFound,
        Cause::MethodNotAllowed("GET"),
        Cause::ChunkedBody,
        Cause::LengthRequired,
        Cause::BodyTooLarge,
        Cause::ChildUnavailable,
        Cause::RoomContended,
        Cause::EntryBusy,
    ] {
        assert_ne!(
            reason(cause.status()),
            "Gateway Timeout",
            "{cause:?} carries {} and must not fall through to the phrase \
             kept for 504",
            cause.status()
        );
    }
    assert_eq!(reason(Cause::StartupTimeout.status()), "Gateway Timeout");
}

#[test]
fn a_refusal_reply_carries_the_status_the_envelope_and_a_retry_when_one_helps() {
    let reply = refuse(&Refusal::new(Cause::RoomContended, "held".to_owned())).text();
    assert!(reply.starts_with("HTTP/1.1 503 Service Unavailable\r\n"), "{reply}");
    assert!(reply.contains("Retry-After: 1\r\n"), "{reply}");
    assert!(reply.ends_with(r#"{"error":{"code":"room_contended","message":"held","type":"server_error"}}"#), "{reply}");
}

#[test]
fn the_listing_names_every_entry() {
    let reply = listing(&vec!["a".to_owned(), "b".to_owned()], false).text();
    let body = reply.split("\r\n\r\n").nth(1).expect("a body");
    let parsed: serde_json::Value = serde_json::from_str(body).expect("JSON");
    assert_eq!(parsed["data"][0]["id"], "a");
    assert_eq!(parsed["data"][1]["id"], "b");
}

fn entry(id: &str) -> Entry {
    Entry {
        id: id.to_owned(),
        path: RelativePath::new("somewhere/model.gguf").expect("relative"),
        draft_path: None,
        projector_path: None,
        context_size: 4096,
        residency: Residency::OnDemand,
        memory_estimate_mib: 1024,
        reasoning_format: None,
        reasoning_effort: None,
        startup_timeout_seconds: 30,
        runtime: None,
        flags: Flags::new(),
    }
}

#[test]
fn the_ready_line_carries_both_measurements_and_what_the_catalog_said() {
    let line = ready_line(
        &entry("qwen3-06b"),
        Span::from_millis(5_440),
        &Measurement {
            resident_mib: Some(4608),
            device_mib: Some(717),
        },
    );

    assert_eq!(
        line,
        "qwen3-06b: ready in 5.4 s, measured 4.5 GiB resident and 0.7 GiB \
         on the device (catalog said 1024 MiB)"
    );
}

#[test]
fn a_side_that_could_not_be_read_says_so_rather_than_saying_zero() {
    let line = ready_line(&entry("qwen3-06b"), Span::from_secs(1), &Measurement::unknown());

    assert!(
        line.contains("nothing readable resident and nothing readable on the device"),
        "an unreadable figure is named as such: {line}"
    );
}

#[test]
fn a_figure_in_gibibytes_is_rounded_down_to_a_tenth() {
    assert_eq!(gibibytes(Some(1024)), "1.0 GiB");
    assert_eq!(gibibytes(Some(1535)), "1.4 GiB");
    assert_eq!(gibibytes(None), "nothing readable");
}

#[test]
fn what_room_making_does_follows_the_decision() {
    assert!(matches!(after_decision(Decision::Fits), RoomStep::Done(Ok(()))));
    assert!(matches!(
        after_decision(Decision::Unload(vec!["a".to_owned()])),
        RoomStep::Unload(ids) if ids == vec!["a".to_owned()]
    ));
    assert!(matches!(
        after_decision(Decision::Blocked("held".to_owned())),
        RoomStep::Held(why) if why == "held"
    ));
    assert!(matches!(
        after_decision(Decision::Refuse("never".to_owned())),
        RoomStep::Done(Err(Failure::Refused(why))) if why == "never"
    ));
}

#[test]
fn a_wait_that_ran_out_is_contended_and_says_how_long() {
    let Failure::Contended(waited) = contended("big", "held by 'x'", Span::from_secs(60)) else {
        panic!("contended");
    };
    assert_eq!(waited, "held by 'x'; 'big' waited 60s and the room did not free up");
    let Failure::Contended(unwaited) = contended("big", "held by 'x'", Span::zero()) else {
        panic!("contended");
    };
    assert!(unwaited.contains("MAESTRO_ADMISSION_WAIT_SECONDS"), "{unwaited}");
    assert_eq!(
        reached_first("big", "small"),
        "'big' needs room held by 'small', which a request reached first"
    );
    assert_eq!(
        unloading_line("big", &vec!["a".to_owned(), "b".to_owned()]),
        "big: unloading a, b to make room"
    );
}

#[test]
fn a_request_for_a_model_the_catalog_does_not_carry_lists_what_it_does() {
    let entries = vec![entry("alpha"), entry("beta")];
    assert_eq!(known(&entries), "alpha, beta");
    let refusal = not_found("gamma", &entries);
    assert_eq!(refusal.cause(), Cause::ModelNotFound);
    assert!(refusal.text().contains("gamma") && refusal.text().contains("alpha, beta"), "{}", refusal.text());
}

#[test]
fn a_chunked_request_is_refused_before_anything_is_read() {
    let head = parse(&lines(&[
        "POST /v1/chat/completions HTTP/1.1",
        "Transfer-Encoding: chunked",
    ]))
    .expect("a well-formed head");
    assert_eq!(framing(&head).expect_err("chunked").cause(), Cause::ChunkedBody);
    let listing_head = parse(&lines(&["GET /v1/models HTTP/1.1"])).expect("a listing");
    assert!(matches!(plan(&listing_head), Plan::Listing { head_only: false }));
    let generic = parse(&lines(&["POST /v1/chat/completions HTTP/1.1", "Content-Length: 12"]))
        .expect("a generic request");
    assert!(matches!(plan(&generic), Plan::Generic { declared: 12 }));
    let lengthless = parse(&lines(&["POST /v1/chat/completions HTTP/1.1"])).expect("a generic request");
    assert!(matches!(plan(&lengthless), Plan::Refuse(r) if r.cause() == Cause::LengthRequired));
}

#[test]
fn the_generic_endpoint_reads_the_declared_body_and_routes_on_its_model() {
    let source = br#"{"model":"gemma3","messages":[]}trailing"#;
    let declared = source.len() - "trailing".len();
    let (bytes, model) = generic_body(source, declared).expect("a body naming a model");
    assert_eq!(model, "gemma3");
    assert_eq!(bytes, br#"{"model":"gemma3","messages":[]}"#.to_vec());
}

#[test]
fn each_way_a_generic_body_fails_is_its_own_refusal() {
    let too_large = generic_body(b"", MAX_BODY_BYTES + 1).expect_err("over the bound");
    assert_eq!(too_large.cause(), Cause::BodyTooLarge);

    let short = generic_body(b"{}", 10).expect_err("fewer bytes than declared");
    assert_eq!(short.cause(), Cause::BodyIncomplete);
    assert_eq!(
        short.text(),
        "a request body declaring 10 bytes ended early: failed to fill whole buffer"
    );

    let not_json = generic_body(b"not json", 8).expect_err("not JSON");
    assert_eq!(not_json.cause(), Cause::BodyNotJson);
    assert!(not_json.text().starts_with("a request body that is not JSON: "));

    let no_model = generic_body(b"{}", 2).expect_err("no model field");
    assert_eq!(no_model.cause(), Cause::ModelMissing);
}

#[test]
fn an_envelope_escapes_what_json_strings_must_escape() {
    let message = "a \"quoted\" word\\path\nnext\tline\u{1}end";
    let envelope = Refusal::new(Cause::ModelNotFound, message.to_owned()).envelope();

    let mut error = serde_json::Map::new();
    error.insert("message".into(), message.into());
    error.insert("type".into(), "invalid_request_error".into());
    error.insert("code".into(), "model_not_found".into());
    let mut outer = serde_json::Map::new();
    outer.insert("error".into(), serde_json::Value::Object(error));

    assert_eq!(envelope, serde_json::Value::Object(outer).to_string());
    assert!(envelope.contains(r#"a \"quoted\" word\\path\nnext\tline\u0001end"#));
}

#[test]
fn the_listing_is_written_as_serde_json_writes_it() {
    let reply = listing(&vec!["gemma\"3".to_owned(), "qwen".to_owned()], false);
    let mut data = Vec::new();
    for id in ["gemma\"3", "qwen"] {
        let mut model = serde_json::Map::new();
        model.insert("id".into(), id.into());
        model.insert("object".into(), "model".into());
        model.insert("owned_by".into(), "maestro-llamacpp".into());
        data.push(serde_json::Value::Object(model));
    }
    let mut list = serde_json::Map::new();
    list.insert("data".into(), data.into());
    list.insert("object".into(), "list".into());
    assert_eq!(reply.body, serde_json::Value::Object(list).to_string());

    let empty = listing(&Vec::new(), false);
    assert_eq!(empty.body, r#"{"data":[],"object":"list"}"#);
}

#[test]
fn a_head_line_taken_as_bytes_must_be_text() {
    let reader = HeadReader::new();
    let refusal = match reader.accept_bytes(b"GET /v1/models HTTP/1.1\xff\r\n") {
        Err(refusal) => refusal,
        Ok(_) => panic!("a line that is not UTF-8 is refused"),
    };
    assert_eq!(refusal.cause(), Cause::MalformedRequest);
    assert_eq!(refusal.text(), "the request head is unreadable: stream did not contain valid UTF-8");

    let reader = HeadReader::new();
    let next = match reader.accept_bytes(b"GET /v1/models HTTP/1.1\r\n") {
        Ok(Err(next)) => next,
        _ => panic!("a request line is taken and more is wanted"),
    };
    match next.accept_bytes(b"\r\n") {
        Ok(Ok(lines)) => assert_eq!(lines, vec!["GET /v1/models HTTP/1.1".to_owned()]),
        _ => panic!("the blank line ends the head"),
    }
}

fn object(pairs: Vec<(&str, serde_json::Value)>) -> serde_json::Value {
    let mut map = serde_json::Map::new();
    for (key, value) in pairs {
        map.insert(key.to_owned(), value);
    }
    serde_json::Value::Object(map)
}

#[test]
fn the_catalogue_and_the_router_answers_are_written_as_serde_json_writes_them() {
    let rows = vec![
        CatalogueRow {
            id: "gemma\"3".to_owned(),
            loaded: true,
            context_size: 8192,
            accepts: vec!["text", "image"],
            declared_mib: 2048,
            held_mib: Some(1900),
        },
        CatalogueRow {
            id: "qwen".to_owned(),
            loaded: false,
            context_size: 4096,
            accepts: vec!["text"],
            declared_mib: 512,
            held_mib: None,
        },
    ];
    let expected: Vec<serde_json::Value> = rows
        .iter()
        .map(|row| {
            object(vec![
                ("id", row.id.clone().into()),
                ("object", "model".into()),
                ("owned_by", "maestro-llamacpp".into()),
                (
                    "status",
                    object(vec![
                        ("value", (if row.loaded { "loaded" } else { "unloaded" }).into()),
                        ("failed", false.into()),
                    ]),
                ),
                ("source", "preset".into()),
                ("meta", object(vec![("n_ctx", row.context_size.into())])),
                (
                    "architecture",
                    object(vec![("input_modalities", row.accepts.clone().into())]),
                ),
                (
                    "memory",
                    object(vec![
                        ("declared_mib", row.declared_mib.into()),
                        ("held_mib", row.held_mib.into()),
                    ]),
                ),
            ])
        })
        .collect();
    let list = object(vec![("object", "list".into()), ("data", expected.into())]);
    assert_eq!(catalogue(&rows), list.to_string());
    assert_eq!(catalogue(&Vec::new()), r#"{"data":[],"object":"list"}"#);

    let gone = object(vec![
        ("id", "gemma3".into()),
        ("object", "model".into()),
        ("status", object(vec![("value", "unloaded".into()), ("failed", false.into())])),
    ]);
    assert_eq!(unloaded("gemma3"), gone.to_string());
    assert_eq!(properties(), object(vec![("models_autoload", true.into())]).to_string());
}
