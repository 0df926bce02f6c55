//! The capabilities that a source exposes in bulk: tools, and resource templates for reads.
use crate::config::{ExposeConfig, FilterConfig};
use crate::document::{document_operations, listed_operations_have_plans, plan_of, ParsedSpec};
use crate::error::{invalid, BackendError, BackendErrorView};
use crate::json::{object, object_of, pair_trees, tree_of, Json, JsonView};
use crate::operation::{operation_views, OperationMeta, OperationMetaView};
use crate::plan::{string_array, strings};
use crate::source::{SourceRuntime, SourceView};
use crate::text::{decimal, decimal_text, join3, text_of, trim_leading, without_leading};
use vstd::prelude::*;

verus! {

/// A tool for one operation.
#[derive(Debug)]
pub struct ExpandedTool {
    pub name: String,
    pub title: Option<String>,
    pub description: String,
    pub input_schema: Json,
    pub output_schema: Option<Json>,
    pub annotations: Option<Json>,
    pub meta: Option<Json>,
    pub backend_kind: String,
    pub backend_spec: Json,
    pub governance: Option<Json>,
    pub retry: Option<Json>,
}

/// A resource template for one operation.
#[derive(Debug)]
pub struct ExpandedResourceTemplate {
    pub name: String,
    pub uri_template: String,
    pub description: String,
    pub mime_type: Option<String>,
    pub meta: Option<Json>,
    pub backend_kind: String,
    pub backend_spec: Json,
    pub governance: Option<Json>,
    pub retry: Option<Json>,
}

/// All that is exposed in bulk.
#[derive(Debug)]
pub struct CapabilitySet {
    pub tools: Vec<ExpandedTool>,
    pub resource_templates: Vec<ExpandedResourceTemplate>,
}

/// What a tool is.
pub struct ExpandedToolView {
    pub name: Seq<char>,
    pub title: Option<Seq<char>>,
    pub description: Seq<char>,
    pub input_schema: JsonView,
    pub output_schema: Option<JsonView>,
    pub annotations: Option<JsonView>,
    pub meta: Option<JsonView>,
    pub backend_kind: Seq<char>,
    pub backend_spec: JsonView,
    pub governance: Option<JsonView>,
    pub retry: Option<JsonView>,
}

/// What a resource template is.
pub struct ExpandedResourceTemplateView {
    pub name: Seq<char>,
    pub uri_template: Seq<char>,
    pub description: Seq<char>,
    pub mime_type: Option<Seq<char>>,
    pub meta: Option<JsonView>,
    pub backend_kind: Seq<char>,
    pub backend_spec: JsonView,
    pub governance: Option<JsonView>,
    pub retry: Option<JsonView>,
}

/// What a set of capabilities is.
#[verifier::ext_equal]
pub struct CapabilitySetView {
    pub tools: Seq<ExpandedToolView>,
    pub resource_templates: Seq<ExpandedResourceTemplateView>,
}

impl View for ExpandedTool {
    type V = ExpandedToolView;

    open spec fn view(&self) -> ExpandedToolView {
        ExpandedToolView {
            name: self.name@,
            title: text_of(self.title),
            description: self.description@,
            input_schema: self.input_schema@,
            output_schema: tree_of(self.output_schema),
            annotations: tree_of(self.annotations),
            meta: tree_of(self.meta),
            backend_kind: self.backend_kind@,
            backend_spec: self.backend_spec@,
            governance: tree_of(self.governance),
            retry: tree_of(self.retry),
        }
    }
}

impl View for ExpandedResourceTemplate {
    type V = ExpandedResourceTemplateView;

    open spec fn view(&self) -> ExpandedResourceTemplateView {
        ExpandedResourceTemplateView {
            name: self.name@,
            uri_template: self.uri_template@,
            description: self.description@,
            mime_type: text_of(self.mime_type),
            meta: tree_of(self.meta),
            backend_kind: self.backend_kind@,
            backend_spec: self.backend_spec@,
            governance: tree_of(self.governance),
            retry: tree_of(self.retry),
        }
    }
}

impl View for CapabilitySet {
    type V = CapabilitySetView;

    open spec fn view(&self) -> CapabilitySetView {
        CapabilitySetView {
            tools: self.tools@.map_values(|t: ExpandedTool| t@),
            resource_templates: self.resource_templates@.map_values(
                |t: ExpandedResourceTemplate| t@,
            ),
        }
    }
}

impl CapabilitySetView {
    /// The set without capabilities.
    pub open spec fn none() -> CapabilitySetView {
        CapabilitySetView { tools: Seq::empty(), resource_templates: Seq::empty() }
    }

    /// This set with another behind it.
    pub open spec fn with(self, more: CapabilitySetView) -> CapabilitySetView {
        CapabilitySetView {
            tools: self.tools + more.tools,
            resource_templates: self.resource_templates + more.resource_templates,
        }
    }
}

/// The operations among the first `n` that the filter admits.
pub open spec fn admitted(filter: FilterConfig, ops: Seq<OperationMetaView>, n: int) -> Seq<
    OperationMetaView,
>
    decreases n,
{
    if n <= 0 {
        Seq::empty()
    } else if filter.admits(ops[n - 1]) {
        admitted(filter, ops, n - 1).push(ops[n - 1])
    } else {
        admitted(filter, ops, n - 1)
    }
}

/// The name of the capability for an operation.
pub open spec fn capability_name(expose: ExposeConfig, op: OperationMetaView) -> Seq<char> {
    (match text_of(expose.tool_prefix) {
        Some(prefix) => prefix,
        None => ""@,
    }) + op.operation_id
}

/// The description of the capability for an operation.
pub open spec fn capability_description(op: OperationMetaView) -> Seq<char> {
    match op.summary {
        Some(s) => s,
        None => match op.description {
            Some(d) => d,
            None => Seq::empty(),
        },
    }
}

/// The binding of the capability for an operation.
pub open spec fn binding_of(source: Seq<char>, op: OperationMetaView) -> JsonView {
    JsonView::Object(
        object_of(
            seq![
                ("source"@, JsonView::String(source)),
                ("operation"@, JsonView::String(op.operation_id)),
            ],
        ),
    )
}

/// What a capability tells of its operation.
pub open spec fn meta_of(source: Seq<char>, op: OperationMetaView) -> JsonView {
    let about = JsonView::Object(
        object_of(
            seq![
                ("source"@, JsonView::String(source)),
                ("operationId"@, JsonView::String(op.operation_id)),
                ("tags"@, strings(op.tags)),
            ],
        ),
    );
    JsonView::Object(object_of(seq![("openapi"@, about)]))
}

/// Whether an operation becomes a resource template: a read by id, unless the source has
/// its reads as tools.
pub open spec fn as_template(expose: ExposeConfig, op: OperationMetaView) -> bool {
    expose.reads_as_resource_templates && op.reads_by_id()
}

/// What the URIs of the resource templates of a source begin with.
pub open spec fn uri_prefix(source: Seq<char>, expose: ExposeConfig) -> Seq<char> {
    match text_of(expose.resource_uri_prefix) {
        Some(prefix) => prefix,
        None => source + "://"@,
    }
}

/// The tool for an operation.
pub open spec fn tool_for(
    source: Seq<char>,
    src: SourceView,
    expose: ExposeConfig,
    root: JsonView,
    op: OperationMetaView,
) -> ExpandedToolView {
    let plan = plan_of(root, op.operation_id)->Ok_0;
    ExpandedToolView {
        name: capability_name(expose, op),
        title: None,
        description: capability_description(op),
        input_schema: plan.input_schema(),
        output_schema: plan.output_schema,
        annotations: None,
        meta: Some(meta_of(source, op)),
        backend_kind: "openapi"@,
        backend_spec: binding_of(source, op),
        governance: src.governance,
        retry: src.retry,
    }
}

/// The resource template for an operation.
pub open spec fn template_for(
    source: Seq<char>,
    src: SourceView,
    expose: ExposeConfig,
    op: OperationMetaView,
) -> ExpandedResourceTemplateView {
    ExpandedResourceTemplateView {
        name: capability_name(expose, op),
        uri_template: uri_prefix(source, expose) + without_leading(op.path, '/'),
        description: capability_description(op),
        mime_type: None,
        meta: Some(meta_of(source, op)),
        backend_kind: "openapi"@,
        backend_spec: binding_of(source, op),
        governance: src.governance,
        retry: src.retry,
    }
}

/// The capabilities for the operations `ops`, one each.
pub open spec fn capabilities_for(
    source: Seq<char>,
    src: SourceView,
    expose: ExposeConfig,
    root: JsonView,
    ops: Seq<OperationMetaView>,
) -> CapabilitySetView
    decreases ops.len(),
{
    if ops.len() == 0 {
        CapabilitySetView::none()
    } else {
        let done = capabilities_for(source, src, expose, root, ops.drop_last());
        let op = ops.last();
        if as_template(expose, op) {
            CapabilitySetView {
                tools: done.tools,
                resource_templates: done.resource_templates.push(
                    template_for(source, src, expose, op),
                ),
            }
        } else {
            CapabilitySetView {
                tools: done.tools.push(tool_for(source, src, expose, root, op)),
                resource_templates: done.resource_templates,
            }
        }
    }
}

/// The operations that a source exposes in bulk.
pub open spec fn exposed(src: SourceView) -> Seq<OperationMetaView> {
    match (src.expose, src.document) {
        (Some(expose), Ok(root)) => if expose.tools {
            let ops = document_operations(root);
            admitted(src.filter, ops, ops.len() as int)
        } else {
            Seq::empty()
        },
        _ => Seq::empty(),
    }
}

/// How a source is refused that exposes too much.
pub open spec fn cap_message(source: Seq<char>, max_capabilities: nat) -> Seq<char> {
    "source '"@ + source + "' exposes more than max_capabilities ("@ + decimal(max_capabilities)
        + ") operations; tighten the filter or raise the cap"@
}

/// The capabilities of a source. One that would exceed its cap is refused.
pub open spec fn source_expanded(source: Seq<char>, src: SourceView) -> Result<
    CapabilitySetView,
    BackendErrorView,
> {
    let ops = exposed(src);
    if ops.len() > src.filter.max_capabilities {
        Err(invalid(cap_message(source, src.filter.max_capabilities as nat)))
    } else if ops.len() == 0 {
        Ok(CapabilitySetView::none())
    } else {
        Ok(
            capabilities_for(
                source,
                src,
                src.expose->Some_0,
                src.document->Ok_0,
                ops,
            ),
        )
    }
}

/// The capabilities of the first `n` sources.
pub open spec fn sources_expanded(sources: Seq<(Seq<char>, SourceView)>, n: int) -> Result<
    CapabilitySetView,
    BackendErrorView,
>
    decreases n,
{
    if n <= 0 {
        Ok(CapabilitySetView::none())
    } else {
        match sources_expanded(sources, n - 1) {
            Ok(done) => match source_expanded(sources[n - 1].0, sources[n - 1].1) {
                Ok(more) => Ok(done.with(more)),
                Err(e) => Err(e),
            },
            Err(e) => Err(e),
        }
    }
}

/// Taking more operations never admits fewer.
proof fn admitted_grows(filter: FilterConfig, ops: Seq<OperationMetaView>, m: int, n: int)
    requires
        m <= n,
    ensures
        admitted(filter, ops, m).len() <= admitted(filter, ops, n).len(),
    decreases n - m,
{
    if m < n {
        admitted_grows(filter, ops, m, n - 1);
    }
}

/// A copy of a document that may be missing.
fn copy_of(v: &Option<Json>) -> (r: Option<Json>)
    ensures
        tree_of(r) == tree_of(*v),
{
    match v {
        Some(j) => Some(j.clone()),
        None => None,
    }
}

/// The name of the capability for an operation.
fn name_for(expose: &ExposeConfig, op: &OperationMeta) -> (r: String)
    ensures
        r@ == capability_name(*expose, op@),
{
    let mut name = match &expose.tool_prefix {
        Some(prefix) => prefix.clone(),
        None => "".to_owned(),
    };
    name.append(op.operation_id.as_str());
    name
}

/// The description of the capability for an operation.
fn description_for(op: &OperationMeta) -> (r: String)
    ensures
        r@ == capability_description(op@),
{
    match &op.summary {
        Some(s) => s.clone(),
        None => match &op.description {
            Some(d) => d.clone(),
            None => String::new(),
        },
    }
}

/// The binding of the capability for an operation.
fn binding_for(source: &str, op: &OperationMeta) -> (r: Json)
    ensures
        r@ == binding_of(source@, op@),
{
    let pairs: Vec<(&'static str, Json)> = vec![
        ("source", Json::from_text(source)),
        ("operation", Json::from_text(op.operation_id.as_str())),
    ];
    assert(pair_trees(pairs@) =~= seq![
        ("source"@, JsonView::String(source@)),
        ("operation"@, JsonView::String(op@.operation_id)),
    ]);
    object(pairs)
}

/// What a capability tells of its operation.
fn meta_for(source: &str, op: &OperationMeta) -> (r: Json)
    ensures
        r@ == meta_of(source@, op@),
{
    let about: Vec<(&'static str, Json)> = vec![
        ("source", Json::from_text(source)),
        ("operationId", Json::from_text(op.operation_id.as_str())),
        ("tags", string_array(&op.tags)),
    ];
    assert(pair_trees(about@) =~= seq![
        ("source"@, JsonView::String(source@)),
        ("operationId"@, JsonView::String(op@.operation_id)),
        ("tags"@, strings(op@.tags)),
    ]);
    let inner = object(about);
    let pairs: Vec<(&'static str, Json)> = vec![("openapi", inner)];
    assert(pair_trees(pairs@) =~= seq![("openapi"@, inner@)]);
    object(pairs)
}

/// The resource template for an operation.
fn make_template(
    source: &str,
    src: &SourceRuntime,
    expose: &ExposeConfig,
    op: &OperationMeta,
) -> (r: ExpandedResourceTemplate)
    ensures
        r@ == template_for(source@, src@, *expose, op@),
{
    let mut uri_template = match &expose.resource_uri_prefix {
        Some(prefix) => prefix.clone(),
        None => {
            let mut prefix = source.to_owned();
            prefix.append("://");
            prefix
        },
    };
    uri_template.append(trim_leading(op.path.as_str(), '/').as_str());
    ExpandedResourceTemplate {
        name: name_for(expose, op),
        uri_template,
        description: description_for(op),
        mime_type: None,
        meta: Some(meta_for(source, op)),
        backend_kind: "openapi".to_owned(),
        backend_spec: binding_for(source, op),
        governance: copy_of(&src.governance),
        retry: copy_of(&src.retry),
    }
}

/// The tool for an operation, or why it cannot be planned.
fn make_tool(
    source: &str,
    src: &SourceRuntime,
    expose: &ExposeConfig,
    spec: &ParsedSpec,
    op: &OperationMeta,
) -> (r: Result<ExpandedTool, BackendError>)
    ensures
        r is Ok <==> plan_of(spec@, op@.operation_id) is Ok,
        r is Ok ==> r->Ok_0@ == tool_for(source@, src@, *expose, spec@, op@),
{
    let plan = match spec.operation_plan(op.operation_id.as_str()) {
        Ok(plan) => plan,
        Err(e) => {
            let mut message = join3("source '", source, "': ");
            message.append(e.as_str());
            return Err(BackendError::InvalidSpec { message });
        },
    };
    Ok(
        ExpandedTool {
            name: name_for(expose, op),
            title: None,
            description: description_for(op),
            input_schema: plan.input_schema(),
            output_schema: copy_of(&plan.output_schema),
            annotations: None,
            meta: Some(meta_for(source, op)),
            backend_kind: "openapi".to_owned(),
            backend_spec: binding_for(source, op),
            governance: copy_of(&src.governance),
            retry: copy_of(&src.retry),
        },
    )
}

/// How a source is refused that exposes too much.
fn cap_error(source: &str, max_capabilities: usize) -> (r: BackendError)
    ensures
        r@ == invalid(cap_message(source@, max_capabilities as nat)),
{
    let mut message = join3("source '", source, "' exposes more than max_capabilities (");
    message.append(decimal_text(max_capabilities as u64).as_str());
    message.append(") operations; tighten the filter or raise the cap");
    BackendError::InvalidSpec { message }
}

/// The capabilities of a source. One that would exceed its cap is refused, so that a filter
/// that is too wide cannot mint thousands of them.
pub fn expand_source(source: &str, src: &SourceRuntime) -> (r: Result<CapabilitySet, BackendError>)
    ensures
        source_expanded(source@, src@) == (match r {
            Ok(set) => Ok::<CapabilitySetView, BackendErrorView>(set@),
            Err(e) => Err(e@),
        }),
{
    let mut tools: Vec<ExpandedTool> = Vec::new();
    let mut resource_templates: Vec<ExpandedResourceTemplate> = Vec::new();
    assert(CapabilitySet { tools, resource_templates }@ =~= CapabilitySetView::none());
    let Some(expose) = &src.expose else {
        return Ok(CapabilitySet { tools, resource_templates });
    };
    if !expose.tools {
        return Ok(CapabilitySet { tools, resource_templates });
    }
    let Ok(spec) = &src.spec else {
        return Ok(CapabilitySet { tools, resource_templates });
    };
    let ops = spec.operations();
    let ghost all = document_operations(spec@);
    let ghost view = src@;
    let max = src.filter.max_capabilities;
    let mut produced: usize = 0;
    assert(admitted(src.filter, all, 0) =~= Seq::empty());
    for i in 0..ops.len()
        invariant
            view == src@,
            all == document_operations(spec@),
            operation_views(ops@) == all,
            src.expose == Some(*expose),
            expose.tools,
            src.spec == Ok::<ParsedSpec, String>(*spec),
            max == src.filter.max_capabilities,
            produced <= i,
            produced <= max,
            produced == admitted(src.filter, all, i as int).len(),
            tools@.map_values(|t: ExpandedTool| t@) == capabilities_for(
                source@,
                view,
                *expose,
                spec@,
                admitted(src.filter, all, i as int),
            ).tools,
            resource_templates@.map_values(|t: ExpandedResourceTemplate| t@) == capabilities_for(
                source@,
                view,
                *expose,
                spec@,
                admitted(src.filter, all, i as int),
            ).resource_templates,
    {
        let op = &ops[i];
        assert(all[i as int] == op@);
        let ghost done = admitted(src.filter, all, i as int);
        if src.filter.allows(op) {
            let ghost next = admitted(src.filter, all, i + 1);
            assert(next.drop_last() =~= done);
            if produced == max {
                proof {
                    admitted_grows(src.filter, all, i + 1, all.len() as int);
                }
                return Err(cap_error(source, max));
            }
            produced = produced + 1;
            if expose.reads_as_resource_templates && op.is_read_by_id() {
                let ghost list = resource_templates@;
                let t = make_template(source, src, expose, op);
                resource_templates.push(t);
                assert(resource_templates@.map_values(|t: ExpandedResourceTemplate| t@)
                    =~= list.map_values(|t: ExpandedResourceTemplate| t@).push(t@));
            } else {
                proof {
                    listed_operations_have_plans(spec@, i as int);
                }
                match make_tool(source, src, expose, spec, op) {
                    Ok(t) => {
                        let ghost list = tools@;
                        tools.push(t);
                        assert(tools@.map_values(|t: ExpandedTool| t@) =~= list.map_values(
                            |t: ExpandedTool| t@,
                        ).push(t@));
                    },
                    Err(e) => {
                        return Err(e);
                    },
                }
            }
        }
    }
    let set = CapabilitySet { tools, resource_templates };
    assert(set@ =~= capabilities_for(source@, view, *expose, spec@, exposed(view)));
    Ok(set)
}

}
