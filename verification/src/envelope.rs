//! What a call is answered with: the envelope of a tool call, or the contents of a resource.
use crate::codec::{json_read, json_text, number_of};
use crate::exchange::{outcome_of, HttpOutcome, HttpOutcomeView};
use crate::json::{object, object_of, pair_trees, tree_of, trees, Json, JsonView};
use crate::request::{PreparedRequest, PreparedRequestView};
use crate::text::{contains, decimal, decimal_text, has_part, pair_texts, text_of};
use vstd::prelude::*;
use vstd::utf8::encode_utf8;

verus! {

/// `v`, or null where it is missing.
pub open spec fn or_null(v: Option<JsonView>) -> JsonView {
    match v {
        Some(j) => j,
        None => JsonView::Null,
    }
}

/// A text as a string, or null where it is missing.
pub open spec fn text_or_null(v: Option<Seq<char>>) -> JsonView {
    match v {
        Some(s) => JsonView::String(s),
        None => JsonView::Null,
    }
}

/// The pairs of a query, each as an array of two strings.
pub open spec fn pairs_listed(pairs: Seq<(Seq<char>, Seq<char>)>) -> JsonView {
    JsonView::Array(
        pairs.map_values(
            |p: (Seq<char>, Seq<char>)|
                JsonView::Array(seq![JsonView::String(p.0), JsonView::String(p.1)]),
        ),
    )
}

/// How a request is reported.
pub open spec fn request_report(p: PreparedRequestView, url: Seq<char>) -> JsonView {
    JsonView::Object(
        object_of(
            seq![
                ("method"@, JsonView::String(p.method)),
                ("url"@, JsonView::String(url)),
                ("query"@, pairs_listed(p.query)),
                ("body"@, or_null(p.body)),
            ],
        ),
    )
}

/// The document in a response body, where its content type is JSON and it can be read.
pub open spec fn body_read(out: HttpOutcomeView) -> Option<JsonView> {
    match out.content_type {
        Some(c) if has_part(c, "json"@) => json_read(out.body_text),
        _ => None,
    }
}

/// The document that came back, where there is one.
pub open spec fn document_received(outcome: Result<HttpOutcomeView, Seq<char>>) -> Option<
    JsonView,
> {
    match outcome {
        Ok(out) => body_read(out),
        Err(_) => None,
    }
}

/// The members of the report on a response whose body holds the document `parsed`.
pub open spec fn response_members(out: HttpOutcomeView, parsed: Option<JsonView>) -> Seq<
    (Seq<char>, JsonView),
> {
    seq![
        ("statusCode"@, JsonView::Number(number_of(out.status as u64))),
        ("contentType"@, text_or_null(out.content_type)),
        ("body"@, JsonView::String(out.body_text)),
        ("bodyTruncated"@, JsonView::Bool(out.body_truncated)),
        ("json"@, or_null(parsed)),
        ("durationMs"@, JsonView::Number(number_of(out.duration_ms as u64))),
    ]
}

/// How a response is reported.
pub open spec fn response_report(out: HttpOutcomeView, parsed: Option<JsonView>) -> JsonView {
    JsonView::Object(object_of(response_members(out, parsed)))
}

/// What marks a call as failed that got no response.
pub open spec fn transport_failure(message: Seq<char>) -> JsonView {
    JsonView::Object(
        object_of(
            seq![
                ("kind"@, JsonView::String("transport_error"@)),
                ("message"@, JsonView::String(message)),
                ("retryable"@, JsonView::Bool(true)),
            ],
        ),
    )
}

/// What marks a call as failed by its status; null for a success.
pub open spec fn status_failure(out: HttpOutcomeView) -> JsonView {
    if out.succeeded() {
        JsonView::Null
    } else {
        JsonView::Object(
            object_of(
                seq![
                    ("kind"@, JsonView::String("unexpected_status_code"@)),
                    ("statusCode"@, JsonView::Number(number_of(out.status as u64))),
                    (
                        "message"@,
                        JsonView::String("upstream responded "@ + decimal(out.status as nat)),
                    ),
                    ("retryable"@, JsonView::Bool(out.status >= 500)),
                ],
            ),
        )
    }
}

/// The members of the envelope.
pub open spec fn envelope_members(
    tool_name: Seq<char>,
    profile: Seq<char>,
    prepared: PreparedRequestView,
    url: Seq<char>,
    outcome: Result<HttpOutcomeView, Seq<char>>,
    parsed: Option<JsonView>,
) -> Seq<(Seq<char>, JsonView)> {
    match outcome {
        Err(message) => seq![
            ("toolName"@, JsonView::String(tool_name)),
            ("profile"@, JsonView::String(profile)),
            ("request"@, request_report(prepared, url)),
            ("response"@, JsonView::Null),
            ("error"@, JsonView::String(message)),
            ("downstreamError"@, transport_failure(message)),
        ],
        Ok(out) => seq![
            ("toolName"@, JsonView::String(tool_name)),
            ("profile"@, JsonView::String(profile)),
            ("request"@, request_report(prepared, url)),
            ("response"@, response_report(out, parsed)),
            ("error"@, JsonView::Null),
            ("downstreamError"@, status_failure(out)),
        ],
    }
}

/// The envelope of a tool call. `parsed` is the document in the body of the response.
pub open spec fn envelope(
    tool_name: Seq<char>,
    profile: Seq<char>,
    prepared: PreparedRequestView,
    url: Seq<char>,
    outcome: Result<HttpOutcomeView, Seq<char>>,
    parsed: Option<JsonView>,
) -> JsonView {
    JsonView::Object(
        object_of(envelope_members(tool_name, profile, prepared, url, outcome, parsed)),
    )
}

/// A text as a string, or null where it is missing.
fn string_or_null(v: &Option<String>) -> (r: Json)
    ensures
        r@ == text_or_null(text_of(*v)),
{
    match v {
        Some(s) => Json::from_text(s.as_str()),
        None => Json::Null,
    }
}

/// The pairs of a query, each as an array of two strings.
fn list_pairs(pairs: &Vec<(String, String)>) -> (r: Json)
    ensures
        r@ == pairs_listed(pair_texts(pairs@)),
{
    let mut items: Vec<Json> = Vec::new();
    for i in 0..pairs.len()
        invariant
            items@.len() == i,
            forall|j: int|
                0 <= j < i ==> (#[trigger] items@[j])@ == JsonView::Array(
                    seq![JsonView::String(pairs@[j].0@), JsonView::String(pairs@[j].1@)],
                ),
    {
        let pair: Vec<Json> = vec![
            Json::from_text(pairs[i].0.as_str()),
            Json::from_text(pairs[i].1.as_str()),
        ];
        assert(trees(pair@) =~= seq![
            JsonView::String(pairs@[i as int].0@),
            JsonView::String(pairs@[i as int].1@),
        ]);
        items.push(Json::from_items(pair));
    }
    assert(trees(items@) =~= pairs_listed(pair_texts(pairs@))->Array_0);
    Json::from_items(items)
}

/// How a request is reported.
fn report_request(prepared: &PreparedRequest, url: &str) -> (r: Json)
    ensures
        r@ == request_report(prepared@, url@),
{
    let body = match &prepared.body {
        Some(b) => b.clone(),
        None => Json::Null,
    };
    let pairs: Vec<(&'static str, Json)> = vec![
        ("method", Json::from_text(prepared.method.as_str())),
        ("url", Json::from_text(url)),
        ("query", list_pairs(&prepared.query)),
        ("body", body),
    ];
    assert(pair_trees(pairs@) =~= seq![
        ("method"@, JsonView::String(prepared@.method)),
        ("url"@, JsonView::String(url@)),
        ("query"@, pairs_listed(prepared@.query)),
        ("body"@, or_null(prepared@.body)),
    ]);
    object(pairs)
}

/// Reads the document in a response body, where its content type is JSON.
pub fn read_body(outcome: &Result<HttpOutcome, String>) -> (r: Option<Json>)
    ensures
        tree_of(r) == document_received(outcome_of(*outcome)),
{
    if let Ok(out) = outcome {
        if let Some(c) = &out.content_type {
            if contains(c.as_str(), "json") {
                return Json::read(out.body_text.as_str());
            }
        }
    }
    None
}

/// How a response is reported.
fn report_response(out: &HttpOutcome, parsed: Option<Json>) -> (r: Json)
    requires
        out.duration_ms <= u64::MAX,
    ensures
        r@ == response_report(out@, tree_of(parsed)),
{
    let ghost document = tree_of(parsed);
    let json = match parsed {
        Some(j) => j,
        None => Json::Null,
    };
    let pairs: Vec<(&'static str, Json)> = vec![
        ("statusCode", Json::from_u64(out.status as u64)),
        ("contentType", string_or_null(&out.content_type)),
        ("body", Json::from_text(out.body_text.as_str())),
        ("bodyTruncated", Json::Bool(out.body_truncated)),
        ("json", json),
        ("durationMs", Json::from_u64(out.duration_ms as u64)),
    ];
    assert(pair_trees(pairs@) =~= response_members(out@, document));
    object(pairs)
}

/// What marks a call as failed that got no response.
fn report_transport_failure(message: &str) -> (r: Json)
    ensures
        r@ == transport_failure(message@),
{
    let pairs: Vec<(&'static str, Json)> = vec![
        ("kind", Json::from_text("transport_error")),
        ("message", Json::from_text(message)),
        ("retryable", Json::Bool(true)),
    ];
    assert(pair_trees(pairs@) =~= seq![
        ("kind"@, JsonView::String("transport_error"@)),
        ("message"@, JsonView::String(message@)),
        ("retryable"@, JsonView::Bool(true)),
    ]);
    object(pairs)
}

/// What marks a call as failed by its status; null for a success.
fn report_status_failure(out: &HttpOutcome) -> (r: Json)
    ensures
        r@ == status_failure(out@),
{
    if out.status / 100 == 2 {
        return Json::Null;
    }
    let mut message = "upstream responded ".to_owned();
    message.append(decimal_text(out.status as u64).as_str());
    let pairs: Vec<(&'static str, Json)> = vec![
        ("kind", Json::from_text("unexpected_status_code")),
        ("statusCode", Json::from_u64(out.status as u64)),
        ("message", Json::from_text(message.as_str())),
        ("retryable", Json::Bool(out.status >= 500)),
    ];
    assert(pair_trees(pairs@) =~= seq![
        ("kind"@, JsonView::String("unexpected_status_code"@)),
        ("statusCode"@, JsonView::Number(number_of(out.status as u64))),
        ("message"@, JsonView::String("upstream responded "@ + decimal(out.status as nat))),
        ("retryable"@, JsonView::Bool(out.status >= 500)),
    ]);
    object(pairs)
}

/// The envelope of a tool call whose response holds the document `parsed`. A duration that
/// exceeds 64 bits has no JSON number.
pub fn envelope_with(
    tool_name: &str,
    profile: &str,
    prepared: &PreparedRequest,
    final_url: &str,
    outcome: &Result<HttpOutcome, String>,
    parsed: Option<Json>,
) -> (r: Json)
    requires
        outcome matches Ok(out) ==> out.duration_ms <= u64::MAX,
    ensures
        r@ == envelope(
            tool_name@,
            profile@,
            prepared@,
            final_url@,
            outcome_of(*outcome),
            tree_of(parsed),
        ),
{
    let ghost document = tree_of(parsed);
    let (response, error, failure) = match outcome {
        Err(message) => (
            Json::Null,
            Json::from_text(message.as_str()),
            report_transport_failure(message.as_str()),
        ),
        Ok(out) => (report_response(out, parsed), Json::Null, report_status_failure(out)),
    };
    let pairs: Vec<(&'static str, Json)> = vec![
        ("toolName", Json::from_text(tool_name)),
        ("profile", Json::from_text(profile)),
        ("request", report_request(prepared, final_url)),
        ("response", response),
        ("error", error),
        ("downstreamError", failure),
    ];
    assert(pair_trees(pairs@) =~= envelope_members(
        tool_name@,
        profile@,
        prepared@,
        final_url@,
        outcome_of(*outcome),
        document,
    ));
    object(pairs)
}

/// Builds the envelope of a tool call. `outcome` is an error where there was no response;
/// otherwise the status decides whether the call failed.
pub fn build_envelope(
    tool_name: &str,
    profile: &str,
    prepared: &PreparedRequest,
    final_url: &str,
    outcome: &Result<HttpOutcome, String>,
) -> (r: Json)
    requires
        outcome matches Ok(out) ==> out.duration_ms <= u64::MAX,
    ensures
        r@ == envelope(
            tool_name@,
            profile@,
            prepared@,
            final_url@,
            outcome_of(*outcome),
            document_received(outcome_of(*outcome)),
        ),
{
    envelope_with(tool_name, profile, prepared, final_url, outcome, read_body(outcome))
}

/// The answer to a call.
#[derive(Debug, Clone)]
pub struct BackendResponse {
    pub payload: Vec<u8>,
    /// Whether the body of the response was cut.
    pub truncated: bool,
}

/// Whether the arguments ask for a resource: they carry the variables of its template.
pub open spec fn asks_for_resource(args: JsonView) -> bool {
    args.members_at("template_vars"@) is Some
}

/// Whether a call is answered with the contents of a resource.
pub open spec fn serves_resource(
    args: JsonView,
    outcome: Result<HttpOutcomeView, Seq<char>>,
) -> bool {
    asks_for_resource(args) && outcome is Ok && outcome->Ok_0.succeeded()
}

/// One resource that was read. It is keyed on the URI that was asked for, or else on the URL
/// that was read.
pub open spec fn content_members(args: JsonView, url: Seq<char>, out: HttpOutcomeView) -> Seq<
    (Seq<char>, JsonView),
> {
    let uri = match args.text_at("uri"@) {
        Some(uri) => uri,
        None => url,
    };
    let mime = match out.content_type {
        Some(c) => c,
        None => "application/json"@,
    };
    seq![
        ("uri"@, JsonView::String(uri)),
        ("mimeType"@, JsonView::String(mime)),
        ("text"@, JsonView::String(out.body_text)),
    ]
}

/// The contents of a resource.
pub open spec fn resource_contents(args: JsonView, url: Seq<char>, out: HttpOutcomeView) -> JsonView {
    let content = JsonView::Object(object_of(content_members(args, url, out)));
    JsonView::Object(object_of(seq![("contents"@, JsonView::Array(seq![content]))]))
}

/// What a call is answered with: the contents of a resource that was read, else the envelope.
pub open spec fn answer(
    args: JsonView,
    tool_name: Seq<char>,
    profile: Seq<char>,
    prepared: PreparedRequestView,
    url: Seq<char>,
    outcome: Result<HttpOutcomeView, Seq<char>>,
    parsed: Option<JsonView>,
) -> JsonView {
    if serves_resource(args, outcome) {
        resource_contents(args, url, outcome->Ok_0)
    } else {
        envelope(tool_name, profile, prepared, url, outcome, parsed)
    }
}

/// The contents of a resource.
fn build_contents(args: &Json, final_url: &str, out: &HttpOutcome) -> (r: Json)
    ensures
        r@ == resource_contents(args@, final_url@, out@),
{
    let uri = match args.text_at("uri") {
        Some(uri) => uri,
        None => final_url,
    };
    let mime = match &out.content_type {
        Some(c) => c.as_str(),
        None => "application/json",
    };
    let content: Vec<(&'static str, Json)> = vec![
        ("uri", Json::from_text(uri)),
        ("mimeType", Json::from_text(mime)),
        ("text", Json::from_text(out.body_text.as_str())),
    ];
    assert(pair_trees(content@) =~= content_members(args@, final_url@, out@));
    let one = object(content);
    let items: Vec<Json> = vec![one];
    assert(trees(items@) =~= seq![one@]);
    let list = Json::from_items(items);
    let pairs: Vec<(&'static str, Json)> = vec![("contents", list)];
    assert(pair_trees(pairs@) =~= seq![("contents"@, list@)]);
    object(pairs)
}

/// What a call is answered with once its exchange is over: the contents of the resource where
/// one was asked for and read, and the envelope everywhere else.
pub fn build_answer(
    args: &Json,
    tool_name: &str,
    profile: &str,
    prepared: &PreparedRequest,
    final_url: &str,
    outcome: &Result<HttpOutcome, String>,
) -> (r: Json)
    requires
        !serves_resource(args@, outcome_of(*outcome)) && *outcome is Ok
            ==> outcome->Ok_0.duration_ms <= u64::MAX,
    ensures
        r@ == answer(
            args@,
            tool_name@,
            profile@,
            prepared@,
            final_url@,
            outcome_of(*outcome),
            document_received(outcome_of(*outcome)),
        ),
{
    let reads = args.members_at("template_vars").is_some();
    match outcome {
        Ok(out) if reads && out.status / 100 == 2 => build_contents(args, final_url, out),
        _ => build_envelope(tool_name, profile, prepared, final_url, outcome),
    }
}

/// Answers a call once its exchange is over.
pub fn build_response(
    args: &Json,
    tool_name: &str,
    profile: &str,
    prepared: &PreparedRequest,
    final_url: &str,
    outcome: &Result<HttpOutcome, String>,
) -> (r: BackendResponse)
    requires
        !serves_resource(args@, outcome_of(*outcome)) && *outcome is Ok
            ==> outcome->Ok_0.duration_ms <= u64::MAX,
    ensures
        r.payload@ == encode_utf8(
            json_text(
                answer(
                    args@,
                    tool_name@,
                    profile@,
                    prepared@,
                    final_url@,
                    outcome_of(*outcome),
                    document_received(outcome_of(*outcome)),
                ),
            ),
        ),
        r.truncated == (*outcome is Ok && outcome->Ok_0.body_truncated),
{
    let truncated = match outcome {
        Ok(out) => out.body_truncated,
        Err(_) => false,
    };
    let value = build_answer(args, tool_name, profile, prepared, final_url, outcome);
    let payload = match value.write_bytes() {
        Some(bytes) => bytes,
        None => vec![123u8, 125u8],
    };
    BackendResponse { payload, truncated }
}

}
