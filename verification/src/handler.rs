//! The decisions of the write proxy for one request, as a state machine.
//!
//! The server feeds a [`Handler`] the events of a request (its head, the
//! frames of its body, the decoded draft, its encoding, the upstream reply)
//! and performs the action that each step returns (read a frame, decode or
//! encode JSON, forward to Graph, or answer). The proxy only ever forwards an
//! authenticated `POST /v1.0/me/messages` whose JSON body, at most
//! `MAX_REQUEST_BYTES` long, holds a draft that passes every schema check.
use vstd::prelude::*;
use vstd::string::StringExecFns;
use crate::auth::{authenticated, bearer_accepted};
use crate::draft::{draft_error, Draft};
use crate::routes::{content_type_is_json, create_draft_path, json_content_type};

verus! {

/// The largest request body the proxy reads.
pub const MAX_REQUEST_BYTES: usize = 64 * 1024;

/// What the proxy reads of a request before its body.
pub struct RequestHead {
    pub method: String,
    pub path: String,
    pub has_query: bool,
    /// The raw `x-m365-write-bearer` header value, if present.
    pub bearer: Option<Vec<u8>>,
    /// The raw `content-type` header value, if present.
    pub content_type: Option<Vec<u8>>,
}

/// One frame of a request body.
pub enum BodyFrame {
    Data(Vec<u8>),
    /// A frame that carries no data (trailers).
    Trailers,
    /// Reading the frame failed.
    Failed,
}

/// The outcome of forwarding a draft to Graph.
pub enum UpstreamReply {
    Received { status: u16, body: Vec<u8> },
    RequestFailed,
    BodyFailed,
}

/// What happened since the last step.
pub enum Event {
    Head(RequestHead),
    Frame(BodyFrame),
    BodyEnd,
    /// The body decoded as a draft, or the decoder's complaint.
    Decoded(Result<Draft, String>),
    /// The validated draft encoded as JSON, or the encoder's complaint.
    Encoded(Result<Vec<u8>, String>),
    Upstream(UpstreamReply),
}

/// A refusal that is logged.
#[derive(Debug, PartialEq, Eq, Structural, Clone, Copy)]
pub enum Denial {
    InvalidBearer,
    RouteNotPermitted,
}

impl Denial {
    /// The reason that the log gives.
    pub open spec fn text(self) -> Seq<char> {
        match self {
            Denial::InvalidBearer => "invalid inter-VM bearer"@,
            Denial::RouteNotPermitted => "only create-draft POSTs are permitted"@,
        }
    }

    /// The reason that the log gives.
    pub fn reason(&self) -> (r: String)
        ensures
            r@ == self.text(),
    {
        match self {
            Denial::InvalidBearer => "invalid inter-VM bearer".to_owned(),
            Denial::RouteNotPermitted => "only create-draft POSTs are permitted".to_owned(),
        }
    }
}

/// The body of an answer.
pub enum ReplyBody {
    /// A `text/plain` message.
    Text(String),
    /// `application/json` bytes relayed from Graph.
    Json(Vec<u8>),
}

/// The answer to a request.
pub struct Reply {
    pub status: u16,
    pub body: ReplyBody,
    /// Set where the refusal is logged.
    pub denial: Option<Denial>,
}

/// What the server is to do next.
pub enum Action {
    ReadFrame,
    Decode(Vec<u8>),
    Encode(Draft),
    Forward(Vec<u8>),
    Respond(Reply),
}

/// Where a request stands.
#[derive(Debug, PartialEq, Eq, Structural, Clone, Copy)]
pub enum Stage {
    AwaitingHead,
    ReadingBody,
    Decoding,
    Encoding,
    Forwarding,
    Finished,
}

/// The bytes of an optional byte vector.
pub open spec fn bytes_opt(o: Option<Vec<u8>>) -> Option<Seq<u8>> {
    match o {
        Some(v) => Some(v@),
        None => None,
    }
}

/// The only route the proxy serves: `POST /v1.0/me/messages`, without a
/// query.
pub open spec fn route_permitted(h: RequestHead) -> bool {
    &&& h.method@ == "POST"@
    &&& h.path@ == create_draft_path()
    &&& !h.has_query
}

/// The refusal of a request head, if it is refused: its status, message and
/// logged denial. Authentication comes first, then the route, then the
/// content type.
pub open spec fn head_refusal(h: RequestHead, expected: Seq<u8>) -> Option<
    (u16, Seq<char>, Option<Denial>),
> {
    if !bearer_accepted(bytes_opt(h.bearer), expected) {
        Some((401, "unauthorized"@, Some(Denial::InvalidBearer)))
    } else if !route_permitted(h) {
        Some((403, "forbidden"@, Some(Denial::RouteNotPermitted)))
    } else if !json_content_type(bytes_opt(h.content_type)) {
        Some((415, "content-type must be application/json"@, None))
    } else {
        None
    }
}

/// `a` answers with `status` and the text message `text`.
pub open spec fn text_reply(a: Action, status: u16, text: Seq<char>, denial: Option<Denial>) -> bool {
    &&& a matches Action::Respond(r)
    &&& r.status == status
    &&& r.denial == denial
    &&& r.body matches ReplyBody::Text(t)
    &&& t@ == text
}

/// The state of one request.
pub struct Handler {
    expected: [u8; 32],
    stage: Stage,
    body: Vec<u8>,
    head: Ghost<Option<RequestHead>>,
    draft: Ghost<Option<Draft>>,
}

impl Handler {
    pub closed spec fn stage(self) -> Stage {
        self.stage
    }

    /// The SHA-256 digest that the bearer must match.
    pub closed spec fn expected(self) -> Seq<u8> {
        self.expected@
    }

    /// The body bytes read so far.
    pub closed spec fn received(self) -> Seq<u8> {
        self.body@
    }

    /// The head of the request, once it has been let in.
    pub closed spec fn admitted(self) -> Option<RequestHead> {
        self.head@
    }

    /// The draft of the request, once it has passed validation.
    pub closed spec fn accepted_draft(self) -> Option<Draft> {
        self.draft@
    }

    /// What every step keeps: no more than `MAX_REQUEST_BYTES` are held; past
    /// the head, the head was let in; past decoding, the draft passed
    /// validation.
    pub open spec fn wf(self) -> bool {
        &&& self.expected().len() == 32
        &&& self.received().len() <= MAX_REQUEST_BYTES
        &&& (self.stage() == Stage::ReadingBody || self.stage() == Stage::Decoding || self.stage()
            == Stage::Encoding || self.stage() == Stage::Forwarding) ==> (self.admitted() matches Some(
            h,
        ) && head_refusal(h, self.expected()) is None)
        &&& (self.stage() == Stage::Encoding || self.stage() == Stage::Forwarding) ==> (
        self.accepted_draft() matches Some(d) && draft_error(d) is None)
    }

    /// Whether `e` is an event that can happen at this stage.
    pub open spec fn expects(self, e: Event) -> bool {
        match e {
            Event::Head(_) => self.stage() == Stage::AwaitingHead,
            Event::Frame(_) => self.stage() == Stage::ReadingBody,
            Event::BodyEnd => self.stage() == Stage::ReadingBody,
            Event::Decoded(_) => self.stage() == Stage::Decoding,
            Event::Encoded(_) => self.stage() == Stage::Encoding,
            Event::Upstream(_) => self.stage() == Stage::Forwarding,
        }
    }

    /// `next` and `a` are what the event `e` leads to from this state.
    pub open spec fn transition(self, e: Event, next: Handler, a: Action) -> bool {
        &&& next.expected() == self.expected()
        &&& match e {
            Event::Head(h) => match head_refusal(h, self.expected()) {
                Some((status, text, denial)) => next.stage() == Stage::Finished && text_reply(
                    a,
                    status,
                    text,
                    denial,
                ),
                None => {
                    &&& next.stage() == Stage::ReadingBody
                    &&& next.received() == Seq::<u8>::empty()
                    &&& next.admitted() == Some(h)
                    &&& a is ReadFrame
                },
            },
            Event::Frame(BodyFrame::Data(d)) => if self.received().len() + d@.len()
                > MAX_REQUEST_BYTES {
                next.stage() == Stage::Finished && text_reply(
                    a,
                    413,
                    "request body exceeds 65536 bytes"@,
                    None,
                )
            } else {
                &&& next.stage() == Stage::ReadingBody
                &&& next.received() == self.received() + d@
                &&& next.admitted() == self.admitted()
                &&& a is ReadFrame
            },
            Event::Frame(BodyFrame::Trailers) => {
                &&& next.stage() == Stage::ReadingBody
                &&& next.received() == self.received()
                &&& next.admitted() == self.admitted()
                &&& a is ReadFrame
            },
            Event::Frame(BodyFrame::Failed) => next.stage() == Stage::Finished && text_reply(
                a,
                413,
                "failed to read request body"@,
                None,
            ),
            Event::BodyEnd => {
                &&& next.stage() == Stage::Decoding
                &&& next.admitted() == self.admitted()
                &&& a matches Action::Decode(bytes)
                &&& bytes@ == self.received()
            },
            Event::Decoded(Err(detail)) => next.stage() == Stage::Finished && text_reply(
                a,
                422,
                "invalid draft JSON: "@ + detail@,
                None,
            ),
            Event::Decoded(Ok(d)) => match draft_error(d) {
                Some(err) => next.stage() == Stage::Finished && text_reply(a, 422, err.text(), None),
                None => {
                    &&& next.stage() == Stage::Encoding
                    &&& next.admitted() == self.admitted()
                    &&& next.accepted_draft() == Some(d)
                    &&& a == Action::Encode(d)
                },
            },
            Event::Encoded(Err(detail)) => next.stage() == Stage::Finished && text_reply(
                a,
                422,
                "failed to encode draft: "@ + detail@,
                None,
            ),
            Event::Encoded(Ok(bytes)) => {
                &&& next.stage() == Stage::Forwarding
                &&& next.admitted() == self.admitted()
                &&& next.accepted_draft() == self.accepted_draft()
                &&& a matches Action::Forward(out)
                &&& out@ == bytes@
            },
            Event::Upstream(UpstreamReply::Received { status, body }) => {
                &&& next.stage() == Stage::Finished
                &&& a matches Action::Respond(r)
                &&& r.status == status
                &&& r.denial is None
                &&& r.body matches ReplyBody::Json(out)
                &&& out@ == body@
            },
            Event::Upstream(UpstreamReply::RequestFailed) => next.stage() == Stage::Finished
                && text_reply(a, 502, "upstream request failed"@, None),
            Event::Upstream(UpstreamReply::BodyFailed) => next.stage() == Stage::Finished
                && text_reply(a, 502, "upstream body read failed"@, None),
        }
    }

    /// A handler for a new request, which lets in bearers whose SHA-256 digest
    /// is `expected`.
    pub fn new(expected: [u8; 32]) -> (h: Handler)
        ensures
            h.wf(),
            h.stage() == Stage::AwaitingHead,
            h.expected() == expected@,
    {
        Handler {
            expected,
            stage: Stage::AwaitingHead,
            body: Vec::new(),
            head: Ghost(None),
            draft: Ghost(None),
        }
    }

    /// Takes the next event of the request.
    pub fn step(self, event: Event) -> (r: (Handler, Action))
        requires
            self.wf(),
            self.expects(event),
        ensures
            r.0.wf(),
            self.transition(event, r.0, r.1),
            // Forwarding happens only for a request that was let in and a
            // draft that passed validation.
            r.1 is Forward ==> (self.admitted() matches Some(h) && route_permitted(h)
                && bearer_accepted(bytes_opt(h.bearer), self.expected()) && json_content_type(
                bytes_opt(h.content_type),
            )) && (self.accepted_draft() matches Some(d) && draft_error(d) is None),
    {
        let Handler { expected, stage, body, head, draft } = self;
        match event {
            Event::Head(h) => {
                let bearer = match &h.bearer {
                    Some(v) => Some(v.as_slice()),
                    None => None,
                };
                if !authenticated(bearer, &expected) {
                    return Self::finish(
                        expected,
                        head,
                        draft,
                        Self::text_action(401, "unauthorized".to_owned(), Some(Denial::InvalidBearer)),
                    );
                }
                let post = "POST".to_owned();
                let create_path = "/v1.0/me/messages".to_owned();
                if !(h.method == post && h.path == create_path && !h.has_query) {
                    return Self::finish(
                        expected,
                        head,
                        draft,
                        Self::text_action(403, "forbidden".to_owned(), Some(Denial::RouteNotPermitted)),
                    );
                }
                let content_type = match &h.content_type {
                    Some(v) => Some(v.as_slice()),
                    None => None,
                };
                if !content_type_is_json(content_type) {
                    return Self::finish(
                        expected,
                        head,
                        draft,
                        Self::text_action(415, "content-type must be application/json".to_owned(), None),
                    );
                }
                let next = Handler {
                    expected,
                    stage: Stage::ReadingBody,
                    body: Vec::new(),
                    head: Ghost(Some(h)),
                    draft,
                };
                (next, Action::ReadFrame)
            },
            Event::Frame(frame) => match frame {
                BodyFrame::Data(data) => {
                    let mut data = data;
                    if data.len() > MAX_REQUEST_BYTES - body.len() {
                        return Self::finish(
                            expected,
                            head,
                            draft,
                            Self::text_action(413, "request body exceeds 65536 bytes".to_owned(), None),
                        );
                    }
                    let mut body = body;
                    body.append(&mut data);
                    (Handler { expected, stage: Stage::ReadingBody, body, head, draft }, Action::ReadFrame)
                },
                BodyFrame::Trailers => {
                    (Handler { expected, stage: Stage::ReadingBody, body, head, draft }, Action::ReadFrame)
                },
                BodyFrame::Failed => Self::finish(
                    expected,
                    head,
                    draft,
                    Self::text_action(413, "failed to read request body".to_owned(), None),
                ),
            },
            Event::BodyEnd => {
                (
                    Handler { expected, stage: Stage::Decoding, body: Vec::new(), head, draft },
                    Action::Decode(body),
                )
            },
            Event::Decoded(decoded) => match decoded {
                Err(detail) => {
                    let mut message = "invalid draft JSON: ".to_owned();
                    message.append(detail.as_str());
                    Self::finish(expected, head, draft, Self::text_action(422, message, None))
                },
                Ok(d) => match d.validate() {
                    Err(err) => Self::finish(
                        expected,
                        head,
                        draft,
                        Self::text_action(422, err.message(), None),
                    ),
                    Ok(()) => {
                        let ghost accepted = d;
                        (
                            Handler {
                                expected,
                                stage: Stage::Encoding,
                                body: Vec::new(),
                                head,
                                draft: Ghost(Some(accepted)),
                            },
                            Action::Encode(d),
                        )
                    },
                },
            },
            Event::Encoded(encoded) => match encoded {
                Err(detail) => {
                    let mut message = "failed to encode draft: ".to_owned();
                    message.append(detail.as_str());
                    Self::finish(expected, head, draft, Self::text_action(422, message, None))
                },
                Ok(bytes) => {
                    (
                        Handler { expected, stage: Stage::Forwarding, body: Vec::new(), head, draft },
                        Action::Forward(bytes),
                    )
                },
            },
            Event::Upstream(reply) => match reply {
                UpstreamReply::Received { status, body: upstream_body } => Self::finish(
                    expected,
                    head,
                    draft,
                    Action::Respond(
                        Reply { status, body: ReplyBody::Json(upstream_body), denial: None },
                    ),
                ),
                UpstreamReply::RequestFailed => Self::finish(
                    expected,
                    head,
                    draft,
                    Self::text_action(502, "upstream request failed".to_owned(), None),
                ),
                UpstreamReply::BodyFailed => Self::finish(
                    expected,
                    head,
                    draft,
                    Self::text_action(502, "upstream body read failed".to_owned(), None),
                ),
            },
        }
    }

    fn text_action(status: u16, message: String, denial: Option<Denial>) -> (a: Action)
        ensures
            text_reply(a, status, message@, denial),
    {
        Action::Respond(Reply { status, body: ReplyBody::Text(message), denial })
    }

    fn finish(
        expected: [u8; 32],
        head: Ghost<Option<RequestHead>>,
        draft: Ghost<Option<Draft>>,
        action: Action,
    ) -> (r: (Handler, Action))
        requires
            expected@.len() == 32,
        ensures
            r.0.wf(),
            r.0.stage() == Stage::Finished,
            r.0.expected() == expected@,
            r.1 == action,
    {
        (Handler { expected, stage: Stage::Finished, body: Vec::new(), head, draft }, action)
    }
}

/// A request is forwarded at most once: forwarding leads to the
/// `Forwarding` stage, from which the only step answers and finishes, and a
/// finished request takes no further event.
pub proof fn lemma_forwards_at_most_once(h: Handler, e: Event, next: Handler, a: Action)
    requires
        h.wf(),
        h.expects(e),
        h.transition(e, next, a),
    ensures
        a is Forward ==> next.stage() == Stage::Forwarding,
        h.stage() == Stage::Forwarding ==> next.stage() == Stage::Finished && !(a is Forward),
        forall|e2: Event| next.stage() == Stage::Finished ==> !next.expects(e2),
{
    assert forall|e2: Event| next.stage() == Stage::Finished implies !next.expects(e2) by {
        match e2 {
            Event::Head(_) => {},
            Event::Frame(_) => {},
            Event::BodyEnd => {},
            Event::Decoded(_) => {},
            Event::Encoded(_) => {},
            Event::Upstream(_) => {},
        }
    }
}

/// Only `POST /v1.0/me/messages` without a query gets past the route check:
/// no other Graph endpoint (sending, updating, deleting) is ever reached.
pub proof fn lemma_only_create_draft_route(h: RequestHead, expected: Seq<u8>)
    requires
        head_refusal(h, expected) is None,
    ensures
        h.method@ == "POST"@,
        h.path@ == create_draft_path(),
        !h.has_query,
        bearer_accepted(bytes_opt(h.bearer), expected),
{
}

/// An authenticated request head that is not `POST /v1.0/me/messages`
/// without a query is answered 403 "forbidden", and the refusal is logged,
/// whatever its content-type header says.
pub proof fn lemma_wrong_route_is_forbidden(
    h: Handler,
    head: RequestHead,
    next: Handler,
    a: Action,
)
    requires
        h.stage() == Stage::AwaitingHead,
        h.transition(Event::Head(head), next, a),
        bearer_accepted(bytes_opt(head.bearer), h.expected()),
        head.method@ != "POST"@ || head.path@ != "/v1.0/me/messages"@ || head.has_query,
    ensures
        next.stage() == Stage::Finished,
        text_reply(a, 403, "forbidden"@, Some(Denial::RouteNotPermitted)),
{
}

/// A request head whose bearer is not accepted is answered 401
/// "unauthorized", logged, whatever its method, path and content type.
pub proof fn lemma_unauthenticated_is_refused(
    h: Handler,
    head: RequestHead,
    next: Handler,
    a: Action,
)
    requires
        h.stage() == Stage::AwaitingHead,
        h.transition(Event::Head(head), next, a),
        !bearer_accepted(bytes_opt(head.bearer), h.expected()),
    ensures
        next.stage() == Stage::Finished,
        text_reply(a, 401, "unauthorized"@, Some(Denial::InvalidBearer)),
{
}

/// An authenticated `POST /v1.0/me/messages` without a query is refused
/// with 415 exactly when its content type is not JSON, and is otherwise let
/// in to read its body.
pub proof fn lemma_create_request_content_type(
    h: Handler,
    head: RequestHead,
    next: Handler,
    a: Action,
)
    requires
        h.stage() == Stage::AwaitingHead,
        h.transition(Event::Head(head), next, a),
        bearer_accepted(bytes_opt(head.bearer), h.expected()),
        head.method@ == "POST"@,
        head.path@ == "/v1.0/me/messages"@,
        !head.has_query,
    ensures
        !json_content_type(bytes_opt(head.content_type)) ==> next.stage() == Stage::Finished
            && text_reply(a, 415, "content-type must be application/json"@, None),
        json_content_type(bytes_opt(head.content_type)) ==> next.stage() == Stage::ReadingBody
            && a is ReadFrame && next.admitted() == Some(head),
{
}

/// While the body is read, a data frame is taken in exactly when the bytes
/// held with it stay within 64 KiB (65536 bytes); then the bytes held are the
/// earlier ones followed by the frame's. Otherwise the request is answered
/// 413.
pub proof fn lemma_body_limit(h: Handler, data: Vec<u8>, next: Handler, a: Action)
    requires
        h.stage() == Stage::ReadingBody,
        h.transition(Event::Frame(BodyFrame::Data(data)), next, a),
    ensures
        h.received().len() + data@.len() <= 65536 ==> next.stage() == Stage::ReadingBody
            && next.received() == h.received() + data@ && a is ReadFrame,
        h.received().len() + data@.len() > 65536 ==> next.stage() == Stage::Finished
            && text_reply(a, 413, "request body exceeds 65536 bytes"@, None),
{
}

/// At the end of the body, the bytes handed to the decoder are exactly the
/// bytes read.
pub proof fn lemma_body_end_decodes_what_was_read(h: Handler, next: Handler, a: Action)
    requires
        h.stage() == Stage::ReadingBody,
        h.transition(Event::BodyEnd, next, a),
    ensures
        next.stage() == Stage::Decoding,
        a matches Action::Decode(bytes) && bytes@ == h.received(),
{
}

/// A body that does not decode is answered 422 with the decoder's complaint
/// after `invalid draft JSON: `; a decoded draft is encoded exactly when it
/// passes validation, and answered 422 with the validation message
/// otherwise.
pub proof fn lemma_decoded_drafts(h: Handler, decoded: Result<Draft, String>, next: Handler, a: Action)
    requires
        h.stage() == Stage::Decoding,
        h.transition(Event::Decoded(decoded), next, a),
    ensures
        decoded matches Err(detail) ==> next.stage() == Stage::Finished && text_reply(
            a,
            422,
            "invalid draft JSON: "@ + detail@,
            None,
        ),
        decoded matches Ok(d) ==> (draft_error(d) is None ==> next.stage() == Stage::Encoding
            && a == Action::Encode(d)),
        decoded matches Ok(d) ==> (draft_error(d) matches Some(e) ==> next.stage()
            == Stage::Finished && text_reply(a, 422, e.text(), None)),
{
}

/// Graph's reply is relayed as it came: same status, its body as JSON, no
/// denial; a failed call is answered 502.
pub proof fn lemma_upstream_relayed(h: Handler, reply: UpstreamReply, next: Handler, a: Action)
    requires
        h.stage() == Stage::Forwarding,
        h.transition(Event::Upstream(reply), next, a),
    ensures
        next.stage() == Stage::Finished,
        reply matches UpstreamReply::Received { status, body } ==> (a matches Action::Respond(r)
            && r.status == status && r.denial is None && (r.body matches ReplyBody::Json(out) && out@ == body@)),
        reply is RequestFailed ==> text_reply(a, 502, "upstream request failed"@, None),
        reply is BodyFailed ==> text_reply(a, 502, "upstream body read failed"@, None),
{
}

} // verus!
