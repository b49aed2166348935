use proxy_m365_write::draft::{Body, Draft};
use proxy_m365_write::handler::{
    Action, BodyFrame, Denial, Event, Handler, Reply, ReplyBody, RequestHead, UpstreamReply,
    MAX_REQUEST_BYTES,
};
use proxy_m365_write::routes::{content_type_is_json, create_draft_url, send_draft_id};

#[test]
fn send_paths_yield_their_draft_id() {
    assert_eq!(send_draft_id("/v1.0/me/messages/AAMk-a_b.c=d%3D/send"), Some("AAMk-a_b.c=d%3D"));
    assert_eq!(send_draft_id("/v1.0/me/messages//send"), None);
    assert_eq!(send_draft_id("/v1.0/me/messages/send"), None);
    assert_eq!(send_draft_id("/v1.0/me/messages/a/b/send"), None);
    assert_eq!(send_draft_id("/v1.0/me/messages/abc"), None);
    assert_eq!(send_draft_id("/v1.0/me/messages/é/send"), None);
    let long_ok = format!("/v1.0/me/messages/{}/send", "x".repeat(512));
    assert_eq!(send_draft_id(&long_ok).map(|s| s.len()), Some(512));
    let too_long = format!("/v1.0/me/messages/{}/send", "x".repeat(513));
    assert_eq!(send_draft_id(&too_long), None);
}

#[test]
fn json_content_type_ignores_ascii_case() {
    assert!(content_type_is_json(Some(b"application/json")));
    assert!(content_type_is_json(Some(b"Application/JSON")));
    assert!(!content_type_is_json(Some(b"application/json; charset=utf-8")));
    assert!(!content_type_is_json(Some(b"text/plain")));
    assert!(!content_type_is_json(None));
}

#[test]
fn upstream_url_appends_the_messages_path() {
    assert_eq!(create_draft_url("https://graph.microsoft.com"), "https://graph.microsoft.com/v1.0/me/messages");
    assert_eq!(create_draft_url("http://127.0.0.1:9"), "http://127.0.0.1:9/v1.0/me/messages");
}

fn secret_digest() -> [u8; 32] {
    openssl::sha::sha256(b"write-secret")
}

fn head(method: &str, path: &str, token: Option<&str>, content_type: Option<&str>) -> RequestHead {
    RequestHead {
        method: method.to_string(),
        path: path.to_string(),
        has_query: false,
        bearer: token.map(|t| t.as_bytes().to_vec()),
        content_type: content_type.map(|t| t.as_bytes().to_vec()),
    }
}

fn text_reply(action: Action) -> (u16, String, Option<Denial>) {
    match action {
        Action::Respond(Reply { status, body: ReplyBody::Text(t), denial }) => (status, t, denial),
        _ => panic!("expected a text reply"),
    }
}

fn admitted(h: RequestHead) -> Handler {
    let (handler, action) = Handler::new(secret_digest()).step(Event::Head(h));
    assert!(matches!(action, Action::ReadFrame));
    handler
}

fn review_draft() -> Draft {
    Draft {
        subject: "Review me".to_string(),
        body: Body { content_type: "Text".to_string(), content: "Safe draft".to_string() },
        to_recipients: Vec::new(),
        cc_recipients: Vec::new(),
    }
}

#[test]
fn creates_only_a_validated_draft() {
    let payload = br#"{"subject":"Review me","body":{"contentType":"Text","content":"Safe draft"}}"#;
    let handler = admitted(head("POST", "/v1.0/me/messages", Some("write-secret"), Some("application/json")));
    let (handler, a) = handler.step(Event::Frame(BodyFrame::Data(payload[..10].to_vec())));
    assert!(matches!(a, Action::ReadFrame));
    let (handler, a) = handler.step(Event::Frame(BodyFrame::Trailers));
    assert!(matches!(a, Action::ReadFrame));
    let (handler, a) = handler.step(Event::Frame(BodyFrame::Data(payload[10..].to_vec())));
    assert!(matches!(a, Action::ReadFrame));
    let (handler, a) = handler.step(Event::BodyEnd);
    match a {
        Action::Decode(bytes) => assert_eq!(bytes, payload.to_vec()),
        _ => panic!("expected decode"),
    }
    let (handler, a) = handler.step(Event::Decoded(Ok(review_draft())));
    match a {
        Action::Encode(d) => assert_eq!(d.subject, "Review me"),
        _ => panic!("expected encode"),
    }
    let (handler, a) = handler.step(Event::Encoded(Ok(payload.to_vec())));
    match a {
        Action::Forward(bytes) => assert_eq!(bytes, payload.to_vec()),
        _ => panic!("expected forward"),
    }
    let created = br#"{"id":"draft-1","isDraft":true}"#.to_vec();
    let (_, a) = handler.step(Event::Upstream(UpstreamReply::Received { status: 201, body: created.clone() }));
    match a {
        Action::Respond(Reply { status, body: ReplyBody::Json(b), denial }) => {
            assert_eq!(status, 201);
            assert_eq!(b, created);
            assert!(denial.is_none());
        }
        _ => panic!("expected the upstream reply"),
    }
}

#[test]
fn rejects_wrong_credentials_paths_methods_and_schema() {
    let json = Some("application/json");
    let (_, a) = Handler::new(secret_digest()).step(Event::Head(head("POST", "/v1.0/me/messages", None, json)));
    assert_eq!(text_reply(a), (401, "unauthorized".to_string(), Some(Denial::InvalidBearer)));
    let (_, a) = Handler::new(secret_digest())
        .step(Event::Head(head("POST", "/v1.0/me/sendMail", Some("write-secret"), json)));
    assert_eq!(text_reply(a), (403, "forbidden".to_string(), Some(Denial::RouteNotPermitted)));
    let (_, a) = Handler::new(secret_digest())
        .step(Event::Head(head("GET", "/v1.0/me/messages", Some("write-secret"), json)));
    assert_eq!(text_reply(a), (403, "forbidden".to_string(), Some(Denial::RouteNotPermitted)));
    let handler = admitted(head("POST", "/v1.0/me/messages", Some("write-secret"), json));
    let (handler, _) = handler.step(Event::BodyEnd);
    let (_, a) = handler.step(Event::Decoded(Err("unknown field `attachments`".to_string())));
    assert_eq!(
        text_reply(a),
        (422, "invalid draft JSON: unknown field `attachments`".to_string(), None)
    );
}

#[test]
fn unauthenticated_requests_are_refused_before_the_route_check() {
    let (_, a) = Handler::new(secret_digest())
        .step(Event::Head(head("GET", "/v1.0/me/sendMail", Some("wrong"), None)));
    assert_eq!(text_reply(a), (401, "unauthorized".to_string(), Some(Denial::InvalidBearer)));
}

#[test]
fn send_and_query_requests_are_forbidden() {
    let json = Some("application/json");
    let (_, a) = Handler::new(secret_digest())
        .step(Event::Head(head("POST", "/v1.0/me/messages/AAMk/send", Some("write-secret"), json)));
    assert_eq!(text_reply(a).0, 403);
    let mut with_query = head("POST", "/v1.0/me/messages", Some("write-secret"), json);
    with_query.has_query = true;
    let (_, a) = Handler::new(secret_digest()).step(Event::Head(with_query));
    assert_eq!(text_reply(a).0, 403);
}

#[test]
fn non_json_content_type_is_unsupported() {
    let (_, a) = Handler::new(secret_digest())
        .step(Event::Head(head("POST", "/v1.0/me/messages", Some("write-secret"), Some("text/plain"))));
    assert_eq!(text_reply(a), (415, "content-type must be application/json".to_string(), None));
    let (_, a) = Handler::new(secret_digest())
        .step(Event::Head(head("POST", "/v1.0/me/messages", Some("write-secret"), None)));
    assert_eq!(text_reply(a).0, 415);
}

#[test]
fn body_limit_is_enforced() {
    let json = Some("application/json");
    let handler = admitted(head("POST", "/v1.0/me/messages", Some("write-secret"), json));
    let (handler, a) = handler.step(Event::Frame(BodyFrame::Data(vec![b' '; MAX_REQUEST_BYTES])));
    assert!(matches!(a, Action::ReadFrame));
    let (_, a) = handler.step(Event::Frame(BodyFrame::Data(vec![b' '])));
    assert_eq!(text_reply(a), (413, "request body exceeds 65536 bytes".to_string(), None));
    let handler = admitted(head("POST", "/v1.0/me/messages", Some("write-secret"), json));
    let (_, a) = handler.step(Event::Frame(BodyFrame::Failed));
    assert_eq!(text_reply(a), (413, "failed to read request body".to_string(), None));
}

#[test]
fn invalid_drafts_and_upstream_failures() {
    let json = Some("application/json");
    let handler = admitted(head("POST", "/v1.0/me/messages", Some("write-secret"), json));
    let (handler, _) = handler.step(Event::BodyEnd);
    let mut d = review_draft();
    d.body.content_type = "Markdown".to_string();
    let (_, a) = handler.step(Event::Decoded(Ok(d)));
    assert_eq!(text_reply(a), (422, "body.contentType must be Text or HTML".to_string(), None));

    let handler = admitted(head("POST", "/v1.0/me/messages", Some("write-secret"), json));
    let (handler, _) = handler.step(Event::BodyEnd);
    let (handler, _) = handler.step(Event::Decoded(Ok(review_draft())));
    let (_, a) = handler.step(Event::Encoded(Err("oops".to_string())));
    assert_eq!(text_reply(a), (422, "failed to encode draft: oops".to_string(), None));

    for (reply, message) in [
        (UpstreamReply::RequestFailed, "upstream request failed"),
        (UpstreamReply::BodyFailed, "upstream body read failed"),
    ] {
        let handler = admitted(head("POST", "/v1.0/me/messages", Some("write-secret"), json));
        let (handler, _) = handler.step(Event::BodyEnd);
        let (handler, _) = handler.step(Event::Decoded(Ok(review_draft())));
        let (handler, _) = handler.step(Event::Encoded(Ok(b"{}".to_vec())));
        let (_, a) = handler.step(Event::Upstream(reply));
        assert_eq!(text_reply(a), (502, message.to_string(), None));
    }
}

#[test]
fn denial_reasons() {
    assert_eq!(Denial::InvalidBearer.reason(), "invalid inter-VM bearer");
    assert_eq!(Denial::RouteNotPermitted.reason(), "only create-draft POSTs are permitted");
}
