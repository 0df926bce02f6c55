//! What stands in an answer, member by member, and what is recorded of a call.
use crate::call::{arguments, header_from, tool_called};
use crate::codec::{json_read, number_of};
use crate::document_laws::{lower_case_ignores_case, same_but_for_case};
use crate::envelope::{
    answer, content_members, document_received, envelope, envelope_members, or_null,
    pairs_listed, request_report, resource_contents, response_members, response_report,
    status_failure, transport_failure,
};
use crate::error::BackendErrorView;
use crate::exchange::HttpOutcomeView;
use crate::json::{object_of, JsonView};
use crate::laws::{object_holds_last, object_holds_no_more};
use crate::plugin::{PluginView, ProfileView};
use crate::request::PreparedRequestView;
use crate::source::SourceView;
use crate::text::{decimal, has_part};
use crate::text_map::lookup;
use vstd::prelude::*;

verus! {

/// A call has succeeded exactly where its status is one of the two hundreds.
pub proof fn success_is_two_hundred(out: HttpOutcomeView)
    ensures
        out.succeeded() <==> 200 <= out.status < 300,
{
}

/// A request is reported with its method, its URL, its query pair by pair, and its body, which is
/// null where there is none.
pub proof fn request_is_reported_in_full(p: PreparedRequestView, url: Seq<char>)
    ensures
        ({
            let r = request_report(p, url);
            &&& r.get("method"@) == Some(JsonView::String(p.method))
            &&& r.get("url"@) == Some(JsonView::String(url))
            &&& r.get("body"@) == Some(
                match p.body {
                    Some(b) => b,
                    None => JsonView::Null,
                },
            )
            &&& r.get("query"@) matches Some(JsonView::Array(items)) && items.len() == p.query.len()
                && forall|i: int|
                0 <= i < items.len() ==> #[trigger] items[i] == JsonView::Array(
                    seq![JsonView::String(p.query[i].0), JsonView::String(p.query[i].1)],
                )
        }),
{
    reveal_strlit("method");
    reveal_strlit("url");
    reveal_strlit("query");
    reveal_strlit("body");
    assert("method"@.len() == 6 && "url"@.len() == 3 && "query"@.len() == 5 && "body"@.len() == 4);
    let pairs = seq![
        ("method"@, JsonView::String(p.method)),
        ("url"@, JsonView::String(url)),
        ("query"@, pairs_listed(p.query)),
        ("body"@, or_null(p.body)),
    ];
    object_holds_last(pairs, 0);
    object_holds_last(pairs, 1);
    object_holds_last(pairs, 2);
    object_holds_last(pairs, 3);
}

/// A response is reported with its status, its content type, its body, whether that was cut, the
/// document in it, and how long it took. What is missing is null.
pub proof fn response_is_reported_in_full(out: HttpOutcomeView, parsed: Option<JsonView>)
    ensures
        ({
            let r = response_report(out, parsed);
            &&& r.get("statusCode"@) == Some(JsonView::Number(number_of(out.status as u64)))
            &&& r.get("contentType"@) == Some(
                match out.content_type {
                    Some(c) => JsonView::String(c),
                    None => JsonView::Null,
                },
            )
            &&& r.get("body"@) == Some(JsonView::String(out.body_text))
            &&& r.get("bodyTruncated"@) == Some(JsonView::Bool(out.body_truncated))
            &&& r.get("json"@) == Some(
                match parsed {
                    Some(v) => v,
                    None => JsonView::Null,
                },
            )
            &&& r.get("durationMs"@) == Some(
                JsonView::Number(number_of(out.duration_ms as u64)),
            )
        }),
{
    reveal_strlit("statusCode");
    reveal_strlit("contentType");
    reveal_strlit("body");
    reveal_strlit("bodyTruncated");
    reveal_strlit("json");
    reveal_strlit("durationMs");
    assert("statusCode"@.len() == 10 && "contentType"@.len() == 11);
    assert("body"@.len() == 4 && "bodyTruncated"@.len() == 13);
    assert("json"@.len() == 4 && "durationMs"@.len() == 10);
    assert("body"@[0] == 'b' && "json"@[0] == 'j');
    assert("statusCode"@[0] == 's' && "durationMs"@[0] == 'd');
    let pairs = response_members(out, parsed);
    object_holds_last(pairs, 0);
    object_holds_last(pairs, 1);
    object_holds_last(pairs, 2);
    object_holds_last(pairs, 3);
    object_holds_last(pairs, 4);
    object_holds_last(pairs, 5);
}

/// A failure tells its kind, its message and whether another try may help: one without a response
/// always may, and one by its status where the upstream is at fault.
pub proof fn failure_is_told_in_full(
    tool_name: Seq<char>,
    profile: Seq<char>,
    prepared: PreparedRequestView,
    url: Seq<char>,
    outcome: Result<HttpOutcomeView, Seq<char>>,
    parsed: Option<JsonView>,
)
    ensures
        ({
            let reply = envelope(tool_name, profile, prepared, url, outcome, parsed);
            &&& reply.get("downstreamError"@) is Some
            &&& ({
                let failure = reply.get("downstreamError"@)->Some_0;
                match outcome {
                    Err(message) => {
                        &&& failure.get("kind"@) == Some(JsonView::String("transport_error"@))
                        &&& failure.get("message"@) == Some(JsonView::String(message))
                        &&& failure.get("retryable"@) == Some(JsonView::Bool(true))
                    },
                    Ok(out) => if 200 <= out.status < 300 {
                        failure == JsonView::Null
                    } else {
                        &&& failure.get("kind"@) == Some(
                            JsonView::String("unexpected_status_code"@),
                        )
                        &&& failure.get("statusCode"@) == Some(
                            JsonView::Number(number_of(out.status as u64)),
                        )
                        &&& failure.get("message"@) == Some(
                            JsonView::String("upstream responded "@ + decimal(out.status as nat)),
                        )
                        &&& failure.get("retryable"@) == Some(JsonView::Bool(out.status >= 500))
                    },
                }
            })
        }),
{
    reveal_strlit("kind");
    reveal_strlit("message");
    reveal_strlit("retryable");
    reveal_strlit("statusCode");
    assert("kind"@.len() == 4 && "message"@.len() == 7);
    assert("retryable"@.len() == 9 && "statusCode"@.len() == 10);
    object_holds_last(envelope_members(tool_name, profile, prepared, url, outcome, parsed), 5);
    match outcome {
        Err(message) => {
            let lost = seq![
                ("kind"@, JsonView::String("transport_error"@)),
                ("message"@, JsonView::String(message)),
                ("retryable"@, JsonView::Bool(true)),
            ];
            assert(transport_failure(message) == JsonView::Object(object_of(lost)));
            object_holds_last(lost, 0);
            object_holds_last(lost, 1);
            object_holds_last(lost, 2);
        },
        Ok(out) => {
            let failed = seq![
                ("kind"@, JsonView::String("unexpected_status_code"@)),
                ("statusCode"@, JsonView::Number(number_of(out.status as u64))),
                ("message"@, JsonView::String("upstream responded "@ + decimal(out.status as nat))),
                ("retryable"@, JsonView::Bool(out.status >= 500)),
            ];
            if !out.succeeded() {
                assert(status_failure(out) == JsonView::Object(object_of(failed)));
            }
            object_holds_last(failed, 0);
            object_holds_last(failed, 1);
            object_holds_last(failed, 2);
            object_holds_last(failed, 3);
        },
    }
}

/// The document in a response is what its body reads as, where the content type names JSON; a
/// call without a response has none.
pub proof fn json_content_is_read(out: HttpOutcomeView, message: Seq<char>)
    ensures
        document_received(Err(message)) is None,
        match out.content_type {
            None => document_received(Ok(out)) is None,
            Some(c) => document_received(Ok(out)) == (if has_part(c, seq!['j', 's', 'o', 'n']) {
                json_read(out.body_text)
            } else {
                None
            }),
        },
{
    reveal_strlit("json");
    assert("json"@ =~= seq!['j', 's', 'o', 'n']);
}

/// A call is answered with the contents of a resource exactly where its arguments carry the
/// variables of a template and it succeeded; otherwise with the envelope. The contents are one
/// item: the URI that was asked for or else the URL, the content type or else JSON, and the body.
pub proof fn resource_is_answered_with_its_contents(
    args: JsonView,
    tool_name: Seq<char>,
    profile: Seq<char>,
    prepared: PreparedRequestView,
    url: Seq<char>,
    outcome: Result<HttpOutcomeView, Seq<char>>,
    parsed: Option<JsonView>,
)
    ensures
        ({
            let reply = answer(args, tool_name, profile, prepared, url, outcome, parsed);
            if (args.get("template_vars"@) matches Some(JsonView::Object(_))) && (
            outcome matches Ok(out) && 200 <= out.status < 300) {
                let out = outcome->Ok_0;
                &&& reply.get("contents"@) matches Some(JsonView::Array(items)) && items.len() == 1
                    && items[0].get("uri"@) == Some(
                    JsonView::String(
                        match args.get("uri"@) {
                            Some(JsonView::String(uri)) => uri,
                            _ => url,
                        },
                    ),
                ) && items[0].get("mimeType"@) == Some(
                    JsonView::String(
                        match out.content_type {
                            Some(c) => c,
                            None => "application/json"@,
                        },
                    ),
                ) && items[0].get("text"@) == Some(JsonView::String(out.body_text))
            } else {
                reply == envelope(tool_name, profile, prepared, url, outcome, parsed)
            }
        }),
{
    if let Ok(out) = outcome {
        reveal_strlit("uri");
        reveal_strlit("mimeType");
        reveal_strlit("text");
        assert("uri"@.len() == 3 && "mimeType"@.len() == 8 && "text"@.len() == 4);
        let content = content_members(args, url, out);
        object_holds_last(content, 0);
        object_holds_last(content, 1);
        object_holds_last(content, 2);
        let items = seq![JsonView::Object(object_of(content))];
        object_holds_last(seq![("contents"@, JsonView::Array(items))], 0);
        assert(resource_contents(args, url, out).get("contents"@) == Some(JsonView::Array(items)));
    }
}

/// The header that names the tool, once the first `i` headers are passed over.
proof fn named_header_is_found(
    headers: Seq<(Seq<char>, Seq<char>)>,
    name: Seq<char>,
    i: int,
    k: int,
)
    requires
        0 <= i <= k <= headers.len(),
        forall|j: int| i <= j < k ==> !same_but_for_case((#[trigger] headers[j]).0, name),
        k < headers.len() ==> same_but_for_case(headers[k].0, name),
    ensures
        header_from(headers, name, i) == (if k < headers.len() {
            Some(headers[k].1)
        } else {
            None
        }),
    decreases k - i,
{
    if i < headers.len() {
        lower_case_ignores_case(headers[i].0, name);
    }
    if i < k {
        assert(!same_but_for_case(headers[i].0, name));
        named_header_is_found(headers, name, i + 1, k);
    }
}

/// The tool that is called is what the first `mcpg-tool-name` header says, in any case of its
/// name; without one it is the profile.
pub proof fn tool_is_named_by_header(
    headers: Seq<(Seq<char>, Seq<char>)>,
    profile: Seq<char>,
    k: int,
)
    requires
        0 <= k <= headers.len(),
        forall|j: int|
            0 <= j < k ==> !same_but_for_case((#[trigger] headers[j]).0, "mcpg-tool-name"@),
        k < headers.len() ==> same_but_for_case(headers[k].0, "mcpg-tool-name"@),
    ensures
        tool_called(headers, profile) == (if k < headers.len() {
            headers[k].1
        } else {
            profile
        }),
{
    named_header_is_found(headers, "mcpg-tool-name"@, 0, k);
}

/// The arguments of a call are what its payload reads as, whatever that is; a payload that cannot
/// be read is an object without members.
pub proof fn payload_holds_the_arguments(v: JsonView)
    ensures
        arguments(Some(v)) == v,
        arguments(None) == JsonView::Object(Seq::empty()),
{
}

/// A call goes to the profile of its name and to that profile's own source. Where one of the two
/// is missing, the error says which name is not registered.
pub proof fn call_goes_to_its_profile(plugin: PluginView, name: Seq<char>)
    ensures
        match lookup(plugin.profiles, name) {
            None => plugin.called(name) == Err::<(ProfileView, SourceView), BackendErrorView>(
                BackendErrorView::ProfileNotFound { backend_name: name },
            ),
            Some(p) => match lookup(plugin.sources, p.source) {
                None => plugin.called(name) == Err::<(ProfileView, SourceView), BackendErrorView>(
                    BackendErrorView::ProfileNotFound { backend_name: p.source },
                ),
                Some(src) => plugin.called(name) == Ok::<
                    (ProfileView, SourceView),
                    BackendErrorView,
                >((p, src)),
            },
        },
{
}

/// A call is recorded with how it was carried out and, where its profile is registered, with the
/// source and the operation of the profile.
pub proof fn call_is_recorded(plugin: PluginView, name: Seq<char>)
    ensures
        ({
            let r = JsonView::Object(plugin.audit(name));
            &&& r.get("openapi.transport"@) == Some(JsonView::String("plugin"@))
            &&& match lookup(plugin.profiles, name) {
                Some(p) => {
                    &&& r.get("openapi.source"@) == Some(JsonView::String(p.source))
                    &&& r.get("openapi.operation_id"@) == Some(
                        JsonView::String(p.plan.operation_id),
                    )
                },
                None => {
                    &&& r.get("openapi.source"@) is None
                    &&& r.get("openapi.operation_id"@) is None
                },
            }
        }),
{
    reveal_strlit("openapi.transport");
    reveal_strlit("openapi.source");
    reveal_strlit("openapi.operation_id");
    assert("openapi.transport"@.len() == 17);
    assert("openapi.source"@.len() == 14);
    assert("openapi.operation_id"@.len() == 20);
    let base = seq![("openapi.transport"@, JsonView::String("plugin"@))];
    match plugin.profile(name) {
        Some(p) => {
            let all = base.push(("openapi.source"@, JsonView::String(p.source))).push(
                ("openapi.operation_id"@, JsonView::String(p.plan.operation_id)),
            );
            object_holds_last(all, 0);
            object_holds_last(all, 1);
            object_holds_last(all, 2);
        },
        None => {
            object_holds_last(base, 0);
            object_holds_no_more(base, "openapi.source"@);
            object_holds_no_more(base, "openapi.operation_id"@);
        },
    }
}

}
