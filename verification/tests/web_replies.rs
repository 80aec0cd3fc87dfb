use cloud_metadata::route::{route_for_path, route_request, Method, Route};
use cloud_metadata::stream::{finish_write, plan_write, StreamError, WriteError, WriteStep};
use cloud_metadata::web::{
    asset_reply, cloud_asset_name, error_reply, failure_message, failure_reply, health_reply,
    not_found_reply, page_reply, stop_on, untyped_page_reply, Failure,
};

#[test]
fn error_reply_has_status_500_and_message() {
    let r = error_reply("boom");
    assert_eq!(r.status, 500);
    assert_eq!(r.content_type, None);
    assert_eq!(r.body, b"Error: boom".to_vec());
}

#[test]
fn failure_replies() {
    assert_eq!(failure_message(Failure::ParseUrl, "x"), "Error parsing URL: x");
    assert_eq!(failure_message(Failure::GetMetadata, "x"), "Error getting metadata: x");
    assert_eq!(failure_message(Failure::OpenStore, "x"), "Error opening store: x");
    assert_eq!(failure_message(Failure::IncrementKey, "x"), "Error incrementing key: x");
    let r = failure_reply(Failure::OpenStore, "no bucket");
    assert_eq!(r.status, 500);
    assert_eq!(r.body, b"Error: Error opening store: no bucket".to_vec());
}

#[test]
fn simple_replies() {
    let r = not_found_reply();
    assert_eq!((r.status, r.content_type, r.body.len()), (404, None, 0));
    let r = health_reply();
    assert_eq!((r.status, r.content_type, r.body.len()), (200, None, 0));
    let r = page_reply("<p>hé</p>");
    assert_eq!(r.status, 200);
    assert_eq!(r.content_type.as_deref(), Some("text/html"));
    assert_eq!(r.body, "<p>hé</p>".as_bytes().to_vec());
    let r = untyped_page_reply("<p>x</p>");
    assert_eq!((r.status, r.content_type, r.body), (200, None, b"<p>x</p>".to_vec()));
}

#[test]
fn asset_replies() {
    let r = asset_reply("assets/index-abc.js", Some(vec![1, 2, 3]));
    assert_eq!(r.status, 200);
    assert_eq!(r.content_type.as_deref(), Some("application/javascript"));
    assert_eq!(r.body, vec![1, 2, 3]);
    let r = asset_reply("assets/index.css", Some(vec![4]));
    assert_eq!(r.status, 200);
    assert_eq!(r.content_type, None);
    let r = asset_reply("missing.png", None);
    assert_eq!((r.status, r.body.len()), (404, 0));
    assert_eq!(cloud_asset_name("app.js"), "assets/app.js");
}

#[test]
fn routes_of_requests() {
    assert!(matches!(route_request("/"), Ok(Some(Route::Index))));
    assert!(matches!(route_request("/index.html"), Ok(Some(Route::Index))));
    assert!(matches!(route_request("/?visits=1"), Ok(Some(Route::Index))));
    match route_request("/assets/app.js?v=2") {
        Ok(Some(Route::Asset(name))) => assert_eq!(name, "assets/app.js"),
        _ => panic!("expected an asset"),
    }
    assert!(matches!(route_request("relative"), Ok(None)));
    match route_request("//[") {
        Err(e) => {
            assert_eq!(e, "invalid IPv6 address");
            assert_eq!(e, url::Url::parse("whatever://[").unwrap_err().to_string());
        }
        Ok(_) => panic!("expected a URL error"),
    }
}

#[test]
fn route_of_path() {
    assert!(matches!(route_for_path(&"/".to_string()), Route::Index));
    match route_for_path(&"/favicon.ico".to_string()) {
        Route::Asset(name) => assert_eq!(name, "favicon.ico"),
        Route::Index => panic!("expected an asset"),
    }
}

#[test]
fn method_names() {
    assert_eq!(Method::Get.to_string(), "GET");
    assert_eq!(Method::Post.to_string(), "POST");
    assert_eq!(Method::Patch.to_string(), "PATCH");
    assert_eq!(Method::Put.to_string(), "PUT");
    assert_eq!(Method::Delete.to_string(), "DELETE");
    assert_eq!(Method::Options.to_string(), "OPTIONS");
    assert_eq!(Method::Head.to_string(), "HEAD");
    assert_eq!(Method::Connect.to_string(), "CONNECT");
    assert_eq!(Method::Trace.to_string(), "TRACE");
    assert_eq!(Method::Other("PURGE".to_string()).to_string(), "PURGE");
}

#[test]
fn write_plans() {
    assert!(matches!(plan_write(Ok(0), 10), WriteStep::Nothing));
    assert!(matches!(plan_write(Err(StreamError::Closed), 10), WriteStep::Nothing));
    assert!(matches!(plan_write(Ok(4), 10), WriteStep::Write(4)));
    assert!(matches!(plan_write(Ok(4096), 10), WriteStep::Write(10)));
    match plan_write(Err(StreamError::LastOperationFailed("broken".to_string())), 10) {
        WriteStep::Fail(WriteError::Other(m)) => assert_eq!(m, "broken"),
        _ => panic!("expected a failure"),
    }
}

#[test]
fn write_outcomes() {
    assert!(matches!(finish_write(7, Ok(())), Ok(7)));
    assert!(matches!(finish_write(7, Err(StreamError::Closed)), Err(WriteError::UnexpectedEof)));
    match finish_write(7, Err(StreamError::LastOperationFailed("e".to_string()))) {
        Err(WriteError::Other(m)) => assert_eq!(m, "e"),
        _ => panic!("expected a failure"),
    }
}

#[test]
fn steps_stop_on_failure() {
    assert!(stop_on(Failure::GetMetadata, &Ok::<u8, String>(1)).is_none());
    let r = stop_on(Failure::IncrementKey, &Err::<u8, String>("busy".to_string())).unwrap();
    assert_eq!(r.status, 500);
    assert_eq!(r.content_type, None);
    assert_eq!(r.body, b"Error: Error incrementing key: busy".to_vec());
}
