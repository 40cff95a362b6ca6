use loadpilot::client::{
    batch_requests, build_url, call_request, encode_fields, in_dispatch_order, item_request,
    urlencoded_str, BatchItem, CallLog, CallOptions, FormData, HttpOutcome,
};
use loadpilot::map::StringMap;
use loadpilot::plan::HttpMethod;
use loadpilot::response::{has_json_shape, parse_json_body, JsonAnswer, RustResponse};
use loadpilot::vuser::{
    check_name, coro_action, fault_message, finish_task, status_to_check, task_results,
    vuser_action, CoroAction, CoroStep, Hooks, VUserAction, VUserFault, VUserMsg,
};

fn no_options() -> CallOptions {
    CallOptions {
        headers: StringMap::new(),
        json: None,
        data: None,
    }
}

fn item(method: Option<&str>, path: Option<&str>) -> BatchItem {
    BatchItem::Dict {
        method: Ok(method.map(|m| m.to_string())),
        path: Ok(path.map(|p| p.to_string())),
        options: Ok(no_options()),
    }
}

fn response(status: u16) -> RustResponse {
    RustResponse::new(status, StringMap::new(), String::new(), false)
}

fn answer(ms: u64, status: u16) -> HttpOutcome {
    HttpOutcome::Response {
        elapsed_ms: ms,
        response: response(status),
    }
}

// ── Batches ──────────────────────────────────────────────────────────────────

#[test]
fn batch_empty_list_returns_empty() {
    let result = batch_requests(&vec![], "http://localhost:9999");
    assert!(result.is_ok());
    assert!(result.unwrap().is_empty());
    let mut log = CallLog::new();
    assert!(log.record_batch(vec![]).unwrap().is_empty());
}

#[test]
fn batch_item_missing_path_returns_error() {
    let result = batch_requests(&vec![item(None, None)], "http://localhost:9999");
    assert!(result.is_err());
    let msg = result.unwrap_err();
    assert!(msg.contains("missing 'path'"), "unexpected error: {msg}");
}

#[test]
fn batch_item_not_a_dict_returns_error() {
    let items = vec![BatchItem::Unreadable {
        error: "'str' object cannot be cast as 'dict'".to_string(),
    }];
    let result = batch_requests(&items, "http://localhost:9999");
    assert!(result.is_err());
}

#[test]
fn batch_default_method_is_get() {
    let result = batch_requests(&vec![item(None, Some("/ping"))], "http://127.0.0.1:19999");
    let requests = result.unwrap();
    assert_eq!(requests[0].method, HttpMethod::Get);
    assert_eq!(requests[0].url, "http://127.0.0.1:19999/ping");
    let mut log = CallLog::new();
    let failed = log.record_batch(vec![HttpOutcome::Failure {
        elapsed_ms: 3,
        error: "connection refused".to_string(),
    }]);
    let msg = failed.unwrap_err();
    assert!(!msg.contains("missing 'path'"));
    assert_eq!(log.calls, vec![(3, 0)]);
}

#[test]
fn batch_methods_count_in_any_letter_case() {
    let q = item_request(&item(Some("pAtCh"), Some("x")), "http://h/").unwrap();
    assert_eq!(q.method, HttpMethod::Patch);
    assert_eq!(q.url, "http://h/x");
    let e = item_request(&item(Some("teapot"), None), "http://h").unwrap_err();
    assert_eq!(e, "Unknown HTTP method: TEAPOT");
}

#[test]
fn batch_reports_the_first_error() {
    let unreadable = BatchItem::Dict {
        method: Err("bad method".to_string()),
        path: Err("bad path".to_string()),
        options: Err("bad options".to_string()),
    };
    let e = batch_requests(&vec![item(None, Some("/")), unreadable, item(None, None)], "h");
    assert_eq!(e.unwrap_err(), "bad method");
    let path = BatchItem::Dict {
        method: Ok(None),
        path: Err("bad path".to_string()),
        options: Err("bad options".to_string()),
    };
    assert_eq!(item_request(&path, "h").unwrap_err(), "bad path");
    let options = BatchItem::Dict {
        method: Ok(None),
        path: Ok(Some("/".to_string())),
        options: Err("bad options".to_string()),
    };
    assert_eq!(item_request(&options, "h").unwrap_err(), "bad options");
}

#[test]
fn batch_is_recorded_in_dispatch_order() {
    let done = vec![(2, answer(30, 500)), (0, answer(10, 200)), (1, answer(20, 404))];
    let mut log = CallLog::new();
    let responses = log.record_batch(in_dispatch_order(done)).unwrap();
    let statuses: Vec<u16> = responses.iter().map(|r| r.status_code).collect();
    assert_eq!(statuses, vec![200, 404, 500]);
    assert_eq!(log.calls, vec![(10, 200), (20, 404), (30, 500)]);
    assert_eq!(log.last_status, Some(500));
}

#[test]
fn batch_with_a_failure_is_recorded_whole() {
    let mut log = CallLog::new();
    let failed = log.record_batch(vec![
        answer(1, 200),
        HttpOutcome::Failure {
            elapsed_ms: 2,
            error: "timeout".to_string(),
        },
        answer(3, 201),
        HttpOutcome::Failure {
            elapsed_ms: 4,
            error: "refused".to_string(),
        },
    ]);
    assert_eq!(failed.unwrap_err(), "timeout");
    assert_eq!(log.calls, vec![(1, 200), (2, 0), (3, 201), (4, 0)]);
    assert_eq!(log.last_status, Some(201));
    assert_eq!(log.last_response, Some(2));
}

#[test]
fn single_calls_are_recorded() {
    let mut log = CallLog::new();
    assert_eq!(log.record(answer(4, 201)).unwrap().status_code, 201);
    let e = log.record(HttpOutcome::Failure {
        elapsed_ms: 5,
        error: "refused".to_string(),
    });
    assert_eq!(e.unwrap_err(), "refused");
    assert_eq!(log.calls, vec![(4, 201), (5, 0)]);
    assert_eq!(log.last_status, Some(201));
    assert_eq!(log.last_response, Some(0));
}

// ── Requests ─────────────────────────────────────────────────────────────────

#[test]
fn urls_have_one_slash() {
    assert_eq!(build_url("http://h", "a"), "http://h/a");
    assert_eq!(build_url("http://h/", "/a"), "http://h/a");
    assert_eq!(build_url("http://h//", ""), "http://h/");
}

#[test]
fn forms_are_encoded() {
    assert_eq!(urlencoded_str("aZ09-_.~"), "aZ09-_.~");
    assert_eq!(urlencoded_str("a b&c"), "a%20b%26c");
    assert_eq!(urlencoded_str("\n"), "%0A");
    assert_eq!(urlencoded_str("€"), "%E2%82%AC");
    assert_eq!(urlencoded_str("ü😀/"), "%C3%BC%F0%9F%98%80%2F");
    assert_ne!(urlencoded_str("€"), urlencoded_str(" AC"));
    assert_eq!(urlencoded_str(""), "");
    assert_eq!(
        encode_fields(&vec![
            ("k".to_string(), "v 1".to_string()),
            ("x".to_string(), "".to_string())
        ]),
        "k=v%201&x="
    );
    assert_eq!(encode_fields(&vec![]), "");
}

#[test]
fn json_goes_before_form_data() {
    let mut options = no_options();
    options.headers.insert("A".to_string(), "1".to_string());
    options.json = Some("{}".to_string());
    options.data = Some(FormData::Text {
        text: "raw".to_string(),
    });
    let q = call_request(HttpMethod::Post, "http://h", "p", &options);
    assert_eq!(q.body.as_deref(), Some("{}"));
    assert_eq!(
        q.headers,
        vec![
            ("A".to_string(), "1".to_string()),
            ("Content-Type".to_string(), "application/json".to_string())
        ]
    );
    options.json = None;
    let q = call_request(HttpMethod::Post, "http://h", "p", &options);
    assert_eq!(q.body.as_deref(), Some("raw"));
    assert_eq!(q.headers[1].1, "application/x-www-form-urlencoded");
    options.data = Some(FormData::Fields {
        fields: vec![("a".to_string(), "b".to_string())],
    });
    let q = call_request(HttpMethod::Put, "http://h", "p", &options);
    assert_eq!(q.body.as_deref(), Some("a=b"));
    options.data = None;
    let q = call_request(HttpMethod::Get, "http://h", "p", &options);
    assert!(q.body.is_none());
    assert_eq!(q.headers.len(), 1);
}

// ── Responses ────────────────────────────────────────────────────────────────

#[test]
fn rust_response_json_parses_object() {
    let resp = RustResponse::new(
        200,
        StringMap::new(),
        r#"{"id":1,"name":"bench"}"#.to_string(),
        false,
    );
    match resp.json().unwrap() {
        JsonAnswer::Read { value } => {
            assert_eq!(value.get("id").unwrap().as_i64(), Some(1));
            assert_eq!(value.get("name").unwrap().as_str(), Some("bench"));
        }
        JsonAnswer::Kept => panic!("nothing was kept"),
    }
}

#[test]
fn rust_response_json_errors_on_invalid() {
    let resp = RustResponse::new(200, StringMap::new(), "not json".to_string(), false);
    match resp.json() {
        Ok(_) => panic!("no JSON"),
        Err(e) => assert!(e.starts_with("JSON decode error: expected"), "{e}"),
    }
}

#[test]
fn rust_response_raise_for_status_ok() {
    let resp = response(200);
    assert!(resp.ok);
    assert!(resp.raise_for_status().is_ok());
    assert!(response(399).raise_for_status().is_ok());
}

#[test]
fn rust_response_raise_for_status_error() {
    let resp = response(404);
    assert!(!resp.ok);
    assert_eq!(resp.raise_for_status().unwrap_err(), "HTTP error 404");
    assert!(response(400).raise_for_status().is_err());
}

#[test]
fn kept_documents_are_not_read_again() {
    let resp = RustResponse::new(200, StringMap::new(), "not json".to_string(), true);
    assert!(matches!(resp.json(), Ok(JsonAnswer::Kept)));
}

#[test]
fn only_objects_and_arrays_are_parsed() {
    assert!(parse_json_body(" {\"a\":1}").is_some());
    assert_eq!(parse_json_body("\n[1, 2]").unwrap().as_array().unwrap().len(), 2);
    assert!(parse_json_body("1").is_none());
    assert!(parse_json_body("\"x\"").is_none());
    assert!(parse_json_body("{broken").is_none());
    assert!(parse_json_body("").is_none());
    assert!(has_json_shape("\t{"));
    assert!(!has_json_shape("x{"));
}

// ── Virtual users ────────────────────────────────────────────────────────────

#[test]
fn failed_check_counts_against_the_last_call() {
    let calls = vec![(1, 200), (2, 404), (3, 200)];
    let passed: Vec<bool> = task_results(&calls, false).iter().map(|r| r.success).collect();
    assert_eq!(passed, vec![true, false, true]);
    let failed: Vec<bool> = task_results(&calls, true).iter().map(|r| r.success).collect();
    assert_eq!(failed, vec![true, false, false]);
    assert!(task_results(&vec![], true).is_empty());
}

#[test]
fn raised_error_follows_the_calls() {
    let calls = vec![(12, 200), (7, 404), (5, 0)];
    let rs = finish_task(Some("boom".to_string()), &calls, None);
    assert_eq!(rs.len(), 4);
    let measured: Vec<(u64, u16, bool)> = rs
        .iter()
        .map(|r| (r.elapsed_ms, r.status_code, r.success))
        .collect();
    assert_eq!(
        measured,
        vec![(12, 200, true), (7, 404, false), (5, 0, false), (0, 500, false)]
    );
    assert!(rs[0].error.is_none());
    assert_eq!(rs[3].error.as_deref(), Some("boom"));
    let rs = finish_task(Some("boom".to_string()), &vec![], None);
    assert_eq!(rs.len(), 1);
    assert_eq!((rs[0].elapsed_ms, rs[0].status_code), (0, 500));
    let rs = finish_task(None, &vec![(1, 200)], Some("check".to_string()));
    assert!(!rs[0].success);
    assert!(rs[0].error.is_none());
}

#[test]
fn checks_need_a_response() {
    assert_eq!(check_name("browse"), "check_browse");
    assert_eq!(status_to_check(true, Some(200)), Some(200));
    assert_eq!(status_to_check(true, None), None);
    assert_eq!(status_to_check(false, Some(200)), None);
}

#[test]
fn vuser_messages_lead_to_actions() {
    assert!(matches!(vuser_action(None), VUserAction::Exit));
    assert!(matches!(vuser_action(Some(VUserMsg::Shutdown)), VUserAction::Exit));
    assert!(matches!(vuser_action(Some(VUserMsg::OnStart)), VUserAction::Start));
    let stop = vuser_action(Some(VUserMsg::OnStop));
    assert!(stop.is_last());
    match vuser_action(Some(VUserMsg::Task { name: "t".to_string() })) {
        VUserAction::Run { name } => assert_eq!(name, "t"),
        other => panic!("unexpected {other:?}"),
    }
    assert!(!VUserAction::Start.is_last());
    assert!(VUserAction::Exit.is_last());
}

#[test]
fn coroutines_are_brought_to_their_end() {
    assert!(matches!(coro_action(CoroStep::Finished, true), CoroAction::Return));
    assert!(matches!(coro_action(CoroStep::Yielded, true), CoroAction::RunOnLoop));
    assert!(matches!(coro_action(CoroStep::Yielded, false), CoroAction::RunFresh));
    match coro_action(CoroStep::Raised { error: "boom".to_string() }, true) {
        CoroAction::Fail { error } => assert_eq!(error, "boom"),
        other => panic!("unexpected {other:?}"),
    }
}

#[test]
fn hooks_decide_the_messages() {
    let both = Hooks { has_on_start: true, has_on_stop: true };
    assert!(matches!(both.start_message(), Some(VUserMsg::OnStart)));
    assert!(matches!(both.stop_message(), VUserMsg::OnStop));
    let none = Hooks { has_on_start: false, has_on_stop: false };
    assert!(none.start_message().is_none());
    assert!(matches!(none.stop_message(), VUserMsg::Shutdown));
}

#[test]
fn faults_have_messages() {
    for (fault, text) in [
        (VUserFault::ExitedBeforeStart, "VUser 3 thread exited before on_start"),
        (VUserFault::StartReplyDropped, "VUser 3 on_start reply dropped"),
        (VUserFault::Exited, "VUser 3 thread exited"),
        (VUserFault::TaskReplyDropped, "VUser 3 task reply dropped"),
        (VUserFault::ExitedBeforeStop, "VUser 3 thread exited before on_stop"),
        (VUserFault::StopReplyDropped, "VUser 3 on_stop reply dropped"),
    ] {
        assert_eq!(fault_message(3, fault), text);
    }
}
