//! Which operations a source exposes, told from its filter alone, and what each of them becomes.
use crate::capability::{
    admitted, binding_of, capabilities_for, exposed, meta_of, source_expanded, sources_expanded,
    CapabilitySetView, ExpandedResourceTemplateView, ExpandedToolView,
};
use crate::config::{ExposeConfig, FilterConfig};
use crate::document::{document_operations, plan_of};
use crate::document_laws::{lower_case_ignores_case, same_but_for_case};
use crate::error::BackendErrorView;
use crate::json::{object_of, JsonView};
use crate::laws::object_holds_last;
use crate::operation::OperationMetaView;
use crate::plan::strings;
use crate::request_laws::rising;
use crate::source::SourceView;
use crate::text::{decimal, lower, texts, without_leading};
use vstd::prelude::*;

verus! {

/// Whether a list holds the text `t`.
pub open spec fn lists(list: Seq<String>, t: Seq<char>) -> bool {
    exists|i: int| 0 <= i < list.len() && (#[trigger] list[i])@ == t
}

/// Whether an operation has a tag that the list holds.
pub open spec fn has_tag_of(op: OperationMetaView, list: Seq<String>) -> bool {
    exists|k: int| 0 <= k < op.tags.len() && lists(list, #[trigger] op.tags[k])
}

/// Whether a list names the method of an operation, in any case.
pub open spec fn names_its_method(list: Seq<String>, op: OperationMetaView) -> bool {
    exists|i: int| 0 <= i < list.len() && same_but_for_case((#[trigger] list[i])@, op.method)
}

/// A text is among the contents of a list exactly where the list holds it.
proof fn listed_text(list: Seq<String>, t: Seq<char>)
    ensures
        texts(list).contains(t) <==> lists(list, t),
{
    if texts(list).contains(t) {
        let i = choose|i: int| 0 <= i < texts(list).len() && texts(list)[i] == t;
        assert(list[i]@ == t);
    }
    if lists(list, t) {
        let i = choose|i: int| 0 <= i < list.len() && (#[trigger] list[i])@ == t;
        assert(texts(list)[i] == t);
    }
}

/// A filter takes an operation exactly where each of its lists of inclusions is empty or matches
/// with one entry, and no list of exclusions matches. A list of tags matches where it holds any
/// one of the tags of the operation.
pub proof fn filter_takes_what_one_entry_matches(filter: FilterConfig, op: OperationMetaView)
    ensures
        filter.admits(op) <==> {
            &&& filter.methods@.len() == 0 || names_its_method(filter.methods@, op)
            &&& filter.include_operations@.len() == 0 || lists(
                filter.include_operations@,
                op.operation_id,
            )
            &&& filter.include_tags@.len() == 0 || has_tag_of(op, filter.include_tags@)
            &&& !lists(filter.exclude_operations@, op.operation_id)
            &&& !has_tag_of(op, filter.exclude_tags@)
        },
{
    listed_text(filter.include_operations@, op.operation_id);
    listed_text(filter.exclude_operations@, op.operation_id);
    assert forall|t: Seq<char>| #[trigger]
        texts(filter.include_tags@).contains(t) <==> lists(filter.include_tags@, t) by {
        listed_text(filter.include_tags@, t);
    }
    assert forall|t: Seq<char>| #[trigger]
        texts(filter.exclude_tags@).contains(t) <==> lists(filter.exclude_tags@, t) by {
        listed_text(filter.exclude_tags@, t);
    }
    if has_tag_of(op, filter.include_tags@) {
        let k = choose|k: int|
            0 <= k < op.tags.len() && lists(filter.include_tags@, #[trigger] op.tags[k]);
        assert(texts(filter.include_tags@).contains(op.tags[k]));
    }
    if has_tag_of(op, filter.exclude_tags@) {
        let k = choose|k: int|
            0 <= k < op.tags.len() && lists(filter.exclude_tags@, #[trigger] op.tags[k]);
        assert(texts(filter.exclude_tags@).contains(op.tags[k]));
    }
    assert forall|i: int| 0 <= i < filter.methods@.len() implies (lower(
        (#[trigger] filter.methods@[i])@,
    ) == lower(op.method)) == same_but_for_case(filter.methods@[i]@, op.method) by {
        lower_case_ignores_case(filter.methods@[i]@, op.method);
    }
}

/// A filter that only lists tags to take in takes every operation with one of them, and no other.
pub proof fn one_listed_tag_is_enough(filter: FilterConfig, op: OperationMetaView)
    requires
        filter.methods@.len() == 0,
        filter.include_operations@.len() == 0,
        filter.exclude_operations@.len() == 0,
        filter.exclude_tags@.len() == 0,
        filter.include_tags@.len() > 0,
    ensures
        filter.admits(op) <==> exists|k: int, i: int|
            #![trigger op.tags[k], filter.include_tags@[i]]
            0 <= k < op.tags.len() && 0 <= i < filter.include_tags@.len() && op.tags[k]
                == filter.include_tags@[i]@,
{
    filter_takes_what_one_entry_matches(filter, op);
    if has_tag_of(op, filter.include_tags@) {
        let k = choose|k: int|
            0 <= k < op.tags.len() && lists(filter.include_tags@, #[trigger] op.tags[k]);
        let i = choose|i: int|
            0 <= i < filter.include_tags@.len() && (#[trigger] filter.include_tags@[i])@
                == op.tags[k];
        assert(op.tags[k] == filter.include_tags@[i]@);
    }
    if exists|k: int, i: int|
        #![trigger op.tags[k], filter.include_tags@[i]]
        0 <= k < op.tags.len() && 0 <= i < filter.include_tags@.len() && op.tags[k]
            == filter.include_tags@[i]@ {
        let (k, i) = choose|k: int, i: int|
            #![trigger op.tags[k], filter.include_tags@[i]]
            0 <= k < op.tags.len() && 0 <= i < filter.include_tags@.len() && op.tags[k]
                == filter.include_tags@[i]@;
        assert(lists(filter.include_tags@, op.tags[k]));
    }
}

/// A filter that only lists operations to take in takes exactly those.
pub proof fn one_listed_operation_is_enough(filter: FilterConfig, op: OperationMetaView)
    requires
        filter.methods@.len() == 0,
        filter.include_tags@.len() == 0,
        filter.exclude_operations@.len() == 0,
        filter.exclude_tags@.len() == 0,
        filter.include_operations@.len() > 0,
    ensures
        filter.admits(op) <==> exists|i: int|
            0 <= i < filter.include_operations@.len() && (#[trigger] filter.include_operations@[i])@
                == op.operation_id,
{
    filter_takes_what_one_entry_matches(filter, op);
}

/// A filter that only lists methods takes every operation with one of them, in any case, and no
/// other.
pub proof fn one_listed_method_is_enough(filter: FilterConfig, op: OperationMetaView)
    requires
        filter.include_operations@.len() == 0,
        filter.include_tags@.len() == 0,
        filter.exclude_operations@.len() == 0,
        filter.exclude_tags@.len() == 0,
        filter.methods@.len() > 0,
    ensures
        filter.admits(op) <==> exists|i: int|
            0 <= i < filter.methods@.len() && same_but_for_case(
                (#[trigger] filter.methods@[i])@,
                op.method,
            ),
{
    filter_takes_what_one_entry_matches(filter, op);
}

/// An operation reads one thing by its id where it is a `GET`, in any case, and its path has a
/// parameter.
pub proof fn read_by_id_is_a_get_with_a_parameter(op: OperationMetaView)
    ensures
        op.reads_by_id() <==> same_but_for_case(op.method, seq!['g', 'e', 't'])
            && op.path_param_count > 0,
{
    reveal_strlit("get");
    assert("get"@ =~= seq!['g', 'e', 't']);
    lower_case_ignores_case(op.method, "get"@);
}

// What becomes of an operation.

/// The operations that the filter admits, by their places.
proof fn admitted_places(filter: FilterConfig, ops: Seq<OperationMetaView>, n: int) -> (ix: Seq<
    int,
>)
    requires
        0 <= n <= ops.len(),
    ensures
        rising(ix, n),
        ix.len() == admitted(filter, ops, n).len(),
        forall|k: int|
            0 <= k < ix.len() ==> admitted(filter, ops, n)[k] == ops[#[trigger] ix[k]]
                && filter.admits(ops[ix[k]]),
        forall|i: int| 0 <= i < n && filter.admits(#[trigger] ops[i]) ==> ix.contains(i),
    decreases n,
{
    if n == 0 {
        Seq::empty()
    } else {
        let done = admitted_places(filter, ops, n - 1);
        let all = admitted(filter, ops, n);
        let ix = if filter.admits(ops[n - 1]) {
            done.push(n - 1)
        } else {
            done
        };
        assert forall|k: int| 0 <= k < ix.len() implies all[k] == ops[#[trigger] ix[k]]
            && filter.admits(ops[ix[k]]) by {
            if k < done.len() {
                assert(ix[k] == done[k]);
                assert(all[k] == admitted(filter, ops, n - 1)[k]);
            }
        }
        assert forall|i: int|
            0 <= i < n && filter.admits(#[trigger] ops[i]) implies ix.contains(i) by {
            if i < n - 1 {
                let k = choose|k: int| 0 <= k < done.len() && done[k] == i;
                assert(ix[k] == i);
            } else {
                assert(ix[ix.len() - 1] == i);
            }
        }
        ix
    }
}

/// A source that is exposed exposes the operations of its document that its filter takes, all of
/// them, each once and in their order.
pub proof fn all_admitted_operations_are_exposed(src: SourceView, root: JsonView) -> (ix: Seq<int>)
    requires
        src.expose is Some,
        src.expose->Some_0.tools,
        src.document == Ok::<JsonView, Seq<char>>(root),
    ensures
        rising(ix, document_operations(root).len() as int),
        ix.len() == exposed(src).len(),
        forall|k: int|
            0 <= k < ix.len() ==> exposed(src)[k] == document_operations(root)[#[trigger] ix[k]]
                && src.filter.admits(document_operations(root)[ix[k]]),
        forall|i: int|
            0 <= i < document_operations(root).len() && src.filter.admits(
                #[trigger] document_operations(root)[i],
            ) ==> ix.contains(i),
{
    let ops = document_operations(root);
    admitted_places(src.filter, ops, ops.len() as int)
}

/// The name of a capability: what the source puts before, and the name of the operation.
pub open spec fn is_named(name: Seq<char>, expose: ExposeConfig, op: OperationMetaView) -> bool {
    match expose.tool_prefix {
        Some(prefix) => name == prefix@ + op.operation_id,
        None => name == op.operation_id,
    }
}

/// The description of a capability: the summary of the operation, or else its description.
pub open spec fn is_described(text: Seq<char>, op: OperationMetaView) -> bool {
    match (op.summary, op.description) {
        (Some(s), _) => text == s,
        (None, Some(d)) => text == d,
        (None, None) => text.len() == 0,
    }
}

/// Whether a binding names the source and the operation.
pub open spec fn binds(spec: JsonView, source: Seq<char>, op: OperationMetaView) -> bool {
    &&& spec.get("source"@) == Some(JsonView::String(source))
    &&& spec.get("operation"@) == Some(JsonView::String(op.operation_id))
}

/// Whether a capability tells where it comes from: the source, the operation and its tags.
pub open spec fn tells_origin(
    meta: Option<JsonView>,
    source: Seq<char>,
    op: OperationMetaView,
) -> bool {
    &&& meta is Some
    &&& meta->Some_0.get("openapi"@) is Some
    &&& ({
        let about = meta->Some_0.get("openapi"@)->Some_0;
        &&& about.get("source"@) == Some(JsonView::String(source))
        &&& about.get("operationId"@) == Some(JsonView::String(op.operation_id))
        &&& about.get("tags"@) matches Some(JsonView::Array(items)) && items.len() == op.tags.len()
            && forall|i: int|
            0 <= i < items.len() ==> #[trigger] items[i] == JsonView::String(op.tags[i])
    })
}

/// Whether a tool is the one for an operation.
pub open spec fn is_tool_of(
    t: ExpandedToolView,
    source: Seq<char>,
    src: SourceView,
    expose: ExposeConfig,
    root: JsonView,
    op: OperationMetaView,
) -> bool {
    &&& is_named(t.name, expose, op)
    &&& is_described(t.description, op)
    &&& t.input_schema == plan_of(root, op.operation_id)->Ok_0.input_schema()
    &&& t.output_schema == plan_of(root, op.operation_id)->Ok_0.output_schema
    &&& tells_origin(t.meta, source, op)
    &&& t.backend_kind == "openapi"@
    &&& binds(t.backend_spec, source, op)
    &&& t.governance == src.governance
    &&& t.retry == src.retry
    &&& t.title is None
    &&& t.annotations is None
}

/// Whether a resource template is the one for an operation. Its URI is the prefix of the source
/// and the path of the operation without the slashes before it.
pub open spec fn is_template_of(
    t: ExpandedResourceTemplateView,
    source: Seq<char>,
    src: SourceView,
    expose: ExposeConfig,
    op: OperationMetaView,
) -> bool {
    &&& is_named(t.name, expose, op)
    &&& is_described(t.description, op)
    &&& t.uri_template == (match expose.resource_uri_prefix {
        Some(prefix) => prefix@,
        None => source + seq![':', '/', '/'],
    }) + without_leading(op.path, '/')
    &&& tells_origin(t.meta, source, op)
    &&& t.backend_kind == "openapi"@
    &&& binds(t.backend_spec, source, op)
    &&& t.governance == src.governance
    &&& t.retry == src.retry
    &&& t.mime_type is None
}

/// Whether an operation becomes a resource template.
pub open spec fn becomes_template(expose: ExposeConfig, op: OperationMetaView) -> bool {
    &&& expose.reads_as_resource_templates
    &&& same_but_for_case(op.method, seq!['g', 'e', 't'])
    &&& op.path_param_count > 0
}

/// What a capability tells and what it is bound to.
proof fn capability_tells_its_operation(source: Seq<char>, op: OperationMetaView)
    ensures
        binds(binding_of(source, op), source, op),
        tells_origin(Some(meta_of(source, op)), source, op),
{
    reveal_strlit("source");
    reveal_strlit("operation");
    reveal_strlit("operationId");
    reveal_strlit("tags");
    assert("source"@.len() == 6 && "operation"@.len() == 9);
    assert("operationId"@.len() == 11 && "tags"@.len() == 4);
    let to = seq![
        ("source"@, JsonView::String(source)),
        ("operation"@, JsonView::String(op.operation_id)),
    ];
    object_holds_last(to, 0);
    object_holds_last(to, 1);
    let from = seq![
        ("source"@, JsonView::String(source)),
        ("operationId"@, JsonView::String(op.operation_id)),
        ("tags"@, strings(op.tags)),
    ];
    object_holds_last(from, 0);
    object_holds_last(from, 1);
    object_holds_last(from, 2);
    let outer = seq![("openapi"@, JsonView::Object(object_of(from)))];
    object_holds_last(outer, 0);
}

/// The places that tools and resource templates come from.
proof fn capability_places(
    source: Seq<char>,
    src: SourceView,
    expose: ExposeConfig,
    root: JsonView,
    ops: Seq<OperationMetaView>,
) -> (r: (Seq<int>, Seq<int>))
    ensures
        ({
            let set = capabilities_for(source, src, expose, root, ops);
            &&& rising(r.0, ops.len() as int)
            &&& rising(r.1, ops.len() as int)
            &&& set.tools.len() == r.0.len()
            &&& set.resource_templates.len() == r.1.len()
            &&& forall|k: int|
                0 <= k < r.0.len() ==> !becomes_template(expose, ops[#[trigger] r.0[k]])
                    && is_tool_of(set.tools[k], source, src, expose, root, ops[r.0[k]])
            &&& forall|k: int|
                0 <= k < r.1.len() ==> becomes_template(expose, ops[#[trigger] r.1[k]])
                    && is_template_of(set.resource_templates[k], source, src, expose, ops[r.1[k]])
            &&& forall|i: int|
                0 <= i < ops.len() ==> if becomes_template(expose, #[trigger] ops[i]) {
                    r.1.contains(i)
                } else {
                    r.0.contains(i)
                }
        }),
    decreases ops.len(),
{
    if ops.len() == 0 {
        (Seq::empty(), Seq::empty())
    } else {
        let init = ops.drop_last();
        let n = ops.len() - 1;
        let op = ops[n];
        let (a, b) = capability_places(source, src, expose, root, init);
        let old = capabilities_for(source, src, expose, root, init);
        let set = capabilities_for(source, src, expose, root, ops);
        capability_tells_its_operation(source, op);
        read_by_id_is_a_get_with_a_parameter(op);
        reveal_strlit("");
        reveal_strlit("://");
        assert("://"@ =~= seq![':', '/', '/']);
        assert(""@ + op.operation_id =~= op.operation_id);
        let r = if becomes_template(expose, op) {
            (a, b.push(n))
        } else {
            (a.push(n), b)
        };
        assert forall|k: int| 0 <= k < r.0.len() implies !becomes_template(
            expose,
            ops[#[trigger] r.0[k]],
        ) && is_tool_of(set.tools[k], source, src, expose, root, ops[r.0[k]]) by {
            if k < a.len() {
                assert(r.0[k] == a[k]);
                assert(init[a[k]] == ops[a[k]]);
                assert(set.tools[k] == old.tools[k]);
            } else {
                assert(ops.last() == op);
            }
        }
        assert forall|k: int| 0 <= k < r.1.len() implies becomes_template(
            expose,
            ops[#[trigger] r.1[k]],
        ) && is_template_of(set.resource_templates[k], source, src, expose, ops[r.1[k]]) by {
            if k < b.len() {
                assert(r.1[k] == b[k]);
                assert(init[b[k]] == ops[b[k]]);
                assert(set.resource_templates[k] == old.resource_templates[k]);
            } else {
                assert(ops.last() == op);
            }
        }
        assert forall|i: int| 0 <= i < ops.len() implies if becomes_template(
            expose,
            #[trigger] ops[i],
        ) {
            r.1.contains(i)
        } else {
            r.0.contains(i)
        } by {
            if i < n {
                assert(init[i] == ops[i]);
                if becomes_template(expose, ops[i]) {
                    let k = choose|k: int| 0 <= k < b.len() && b[k] == i;
                    assert(r.1[k] == i);
                } else {
                    let k = choose|k: int| 0 <= k < a.len() && a[k] == i;
                    assert(r.0[k] == i);
                }
            } else if becomes_template(expose, op) {
                assert(r.1[r.1.len() - 1] == i);
            } else {
                assert(r.0[r.0.len() - 1] == i);
            }
        }
        r
    }
}

/// Every operation that a source exposes becomes one capability, in the order of the operations:
/// a read by id a resource template, unless the source has its reads as tools, and any other a
/// tool. The capability is the operation's own in all that it carries.
pub proof fn every_exposed_operation_is_a_capability(source: Seq<char>, src: SourceView) -> (r: (
    Seq<int>,
    Seq<int>,
))
    requires
        exposed(src).len() > 0,
        exposed(src).len() <= src.filter.max_capabilities,
    ensures
        source_expanded(source, src) is Ok,
        src.expose is Some,
        src.document is Ok,
        ({
            let set = source_expanded(source, src)->Ok_0;
            let expose = src.expose->Some_0;
            let root = src.document->Ok_0;
            let ops = exposed(src);
            &&& rising(r.0, ops.len() as int)
            &&& rising(r.1, ops.len() as int)
            &&& set.tools.len() == r.0.len()
            &&& set.resource_templates.len() == r.1.len()
            &&& forall|k: int|
                0 <= k < r.0.len() ==> !becomes_template(expose, ops[#[trigger] r.0[k]])
                    && is_tool_of(set.tools[k], source, src, expose, root, ops[r.0[k]])
            &&& forall|k: int|
                0 <= k < r.1.len() ==> becomes_template(expose, ops[#[trigger] r.1[k]])
                    && is_template_of(set.resource_templates[k], source, src, expose, ops[r.1[k]])
            &&& forall|i: int|
                0 <= i < ops.len() ==> if becomes_template(expose, #[trigger] ops[i]) {
                    r.1.contains(i)
                } else {
                    r.0.contains(i)
                }
        }),
{
    capability_places(source, src, src.expose->Some_0, src.document->Ok_0, exposed(src))
}

/// A source that exposes more than its cap is refused, and the refusal says so.
pub proof fn too_many_capabilities_are_refused(source: Seq<char>, src: SourceView)
    ensures
        exposed(src).len() > src.filter.max_capabilities <==> source_expanded(source, src) is Err,
        exposed(src).len() > src.filter.max_capabilities ==> source_expanded(source, src) == Err::<
            CapabilitySetView,
            BackendErrorView,
        >(
            BackendErrorView::InvalidSpec {
                message: "source '"@ + source + "' exposes more than max_capabilities ("@
                    + decimal(src.filter.max_capabilities as nat)
                    + ") operations; tighten the filter or raise the cap"@,
            },
        ),
        exposed(src).len() == 0 ==> source_expanded(source, src) is Ok && source_expanded(
            source,
            src,
        )->Ok_0.tools.len() == 0 && source_expanded(source, src)->Ok_0.resource_templates.len()
            == 0,
{
}

/// The capabilities of several sources are those of each, one source after the other. The first
/// source that is refused has the whole refused, for its reason.
pub proof fn sources_are_expanded_one_by_one(sources: Seq<(Seq<char>, SourceView)>, n: int)
    requires
        0 <= n < sources.len(),
    ensures
        sources_expanded(sources, 0) is Ok,
        sources_expanded(sources, 0)->Ok_0.tools.len() == 0,
        sources_expanded(sources, 0)->Ok_0.resource_templates.len() == 0,
        match (sources_expanded(sources, n), source_expanded(sources[n].0, sources[n].1)) {
            (Ok(done), Ok(more)) => {
                &&& sources_expanded(sources, n + 1) is Ok
                &&& sources_expanded(sources, n + 1)->Ok_0.tools == done.tools + more.tools
                &&& sources_expanded(sources, n + 1)->Ok_0.resource_templates
                    == done.resource_templates + more.resource_templates
            },
            (Ok(_), Err(e)) => sources_expanded(sources, n + 1) == Err::<
                CapabilitySetView,
                BackendErrorView,
            >(e),
            (Err(e), _) => sources_expanded(sources, n + 1) == Err::<
                CapabilitySetView,
                BackendErrorView,
            >(e),
        },
{
}

}
