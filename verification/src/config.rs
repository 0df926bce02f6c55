//! What an operator configures: the sources, how to reach them, and what to expose.
use crate::codec::json_read;
use crate::json::{Json, JsonView};
use crate::operation::{OperationMeta, OperationMetaView};
use crate::text::{after_prefix, blank, is_blank, is_one_of, lower, same_ignoring_case, texts};
use crate::text_map::TextMap;
use vstd::prelude::*;

verus! {

/// The configuration of the plugin.
#[derive(Debug, Clone)]
pub struct PluginConfig {
    pub sources: Vec<SourceConfig>,
}

/// One source: a document and how to reach the service that it describes.
#[derive(Debug, Clone)]
pub struct SourceConfig {
    /// The name under which bindings refer to the source.
    pub name: String,
    /// Where the document lives.
    pub spec: SpecSource,
    /// Base URL of the service. It stands in place of the first server of the document.
    pub base_url: Option<String>,
    /// Headers sent on every request to the source.
    pub headers: TextMap<String>,
    /// A secret per security scheme of the document.
    pub auth: TextMap<String>,
    pub upstream_safety: UpstreamSafety,
    pub response: ResponseLimits,
    /// Bulk exposure. Where it is missing, only explicit bindings use the source.
    pub expose: Option<ExposeConfig>,
    /// Which operations bulk exposure takes.
    pub filter: FilterConfig,
    /// Relayed onto every exposed capability, unread.
    pub governance: Option<Json>,
    /// Relayed onto every exposed capability, unread.
    pub retry: Option<Json>,
}

/// Where a document is loaded from.
#[derive(Debug, Clone)]
pub enum SpecSource {
    /// A URI, such as `file:///path/to/spec.yaml`.
    Uri(String),
    /// The document itself.
    Inline { inline: Json },
}

/// What a source exposes in bulk.
#[derive(Debug, Clone)]
pub struct ExposeConfig {
    pub tools: bool,
    /// Put before each `operationId` to form the name of the capability.
    pub tool_prefix: Option<String>,
    /// Whether a read by id becomes a resource template instead of a tool.
    pub reads_as_resource_templates: bool,
    /// What the URI of a resource template begins with; the source and `://` where missing.
    pub resource_uri_prefix: Option<String>,
}

/// Which operations are exposed in bulk. An empty list of inclusions takes all.
#[derive(Debug, Clone)]
pub struct FilterConfig {
    pub include_tags: Vec<String>,
    pub exclude_tags: Vec<String>,
    pub include_operations: Vec<String>,
    pub exclude_operations: Vec<String>,
    /// HTTP methods to take, in any case.
    pub methods: Vec<String>,
    /// How many capabilities a source may expose at most.
    pub max_capabilities: usize,
}

/// Which upstreams are allowed although they are not safe.
#[derive(Debug, Clone)]
pub struct UpstreamSafety {
    /// Allow an upstream that resolves only to private or loopback addresses.
    pub allow_private_backends: bool,
    /// Allow an `http://` base URL.
    pub allow_insecure_http: bool,
}

/// Limits on a response.
#[derive(Debug, Clone)]
pub struct ResponseLimits {
    pub max_response_bytes: usize,
    pub timeout_ms: u64,
}

/// Which operation of which source a capability is bound to.
#[derive(Debug, Clone)]
pub struct BindingSpec {
    pub source: String,
    pub operation: String,
}

/// Reads become resource templates unless a source says otherwise.
pub fn default_true() -> (r: bool)
    ensures
        r,
{
    true
}

/// How many capabilities a source exposes at most unless it says otherwise.
pub fn default_max_capabilities() -> (r: usize)
    ensures
        r == 200,
{
    200
}

/// How many bytes of a response body are kept unless a source says otherwise.
pub fn default_max_response_bytes() -> (r: usize)
    ensures
        r == 1_048_576,
{
    1_048_576
}

/// How long a call may take unless a source says otherwise.
pub fn default_timeout_ms() -> (r: u64)
    ensures
        r == 8_000,
{
    8_000
}

impl Default for PluginConfig {
    fn default() -> (r: Self)
        ensures
            r.sources@.len() == 0,
    {
        PluginConfig { sources: Vec::new() }
    }
}

impl Default for ExposeConfig {
    fn default() -> (r: Self)
        ensures
            !r.tools,
            r.tool_prefix is None,
            r.reads_as_resource_templates,
            r.resource_uri_prefix is None,
    {
        ExposeConfig {
            tools: false,
            tool_prefix: None,
            reads_as_resource_templates: default_true(),
            resource_uri_prefix: None,
        }
    }
}

impl Default for FilterConfig {
    fn default() -> (r: Self)
        ensures
            r.include_tags@.len() == 0,
            r.exclude_tags@.len() == 0,
            r.include_operations@.len() == 0,
            r.exclude_operations@.len() == 0,
            r.methods@.len() == 0,
            r.max_capabilities == 200,
    {
        FilterConfig {
            include_tags: Vec::new(),
            exclude_tags: Vec::new(),
            include_operations: Vec::new(),
            exclude_operations: Vec::new(),
            methods: Vec::new(),
            max_capabilities: default_max_capabilities(),
        }
    }
}

impl Default for UpstreamSafety {
    fn default() -> (r: Self)
        ensures
            !r.allow_private_backends,
            !r.allow_insecure_http,
    {
        UpstreamSafety { allow_private_backends: false, allow_insecure_http: false }
    }
}

impl Default for ResponseLimits {
    fn default() -> (r: Self)
        ensures
            r.max_response_bytes == 1_048_576,
            r.timeout_ms == 8_000,
    {
        ResponseLimits {
            max_response_bytes: default_max_response_bytes(),
            timeout_ms: default_timeout_ms(),
        }
    }
}

/// Whether a block of configuration is missing: it is blank, or null.
pub open spec fn absent(block: Seq<char>, read: Option<JsonView>) -> bool {
    blank(block) || read == Some(JsonView::Null)
}

/// Whether a block of configuration is missing, so that the defaults stand. Any other block has
/// to be read as a configuration, or the plugin is refused.
pub fn block_is_absent(block: &str) -> (r: bool)
    ensures
        r == absent(block@, json_read(block@)),
{
    if is_blank(block) {
        return true;
    }
    match Json::read(block) {
        Some(Json::Null) => true,
        _ => false,
    }
}

impl SpecSource {
    /// The file that holds the document, where it is one.
    pub fn file_path(&self) -> (r: Option<String>)
        ensures
            match *self {
                SpecSource::Uri(uri) => match r {
                    Some(path) => "file://"@.is_prefix_of(uri@) && path@ == uri@.skip(
                        "file://"@.len() as int,
                    ),
                    None => !"file://"@.is_prefix_of(uri@),
                },
                SpecSource::Inline { .. } => r is None,
            },
    {
        match self {
            SpecSource::Uri(uri) => after_prefix(uri.as_str(), "file://"),
            SpecSource::Inline { .. } => None,
        }
    }
}

impl FilterConfig {
    /// Whether an operation passes the filter: every list of inclusions that is not empty
    /// has it, and no list of exclusions does.
    pub open spec fn admits(self, op: OperationMetaView) -> bool {
        &&& self.methods@.len() == 0 || exists|i: int|
            0 <= i < self.methods@.len() && lower((#[trigger] self.methods@[i])@) == lower(op.method)
        &&& self.include_operations@.len() == 0 || texts(self.include_operations@).contains(
            op.operation_id,
        )
        &&& !texts(self.exclude_operations@).contains(op.operation_id)
        &&& self.include_tags@.len() == 0 || shares(op.tags, texts(self.include_tags@))
        &&& !shares(op.tags, texts(self.exclude_tags@))
    }

    /// Whether an operation passes the filter.
    pub fn allows(&self, op: &OperationMeta) -> (r: bool)
        ensures
            r == self.admits(op@),
    {
        if self.methods.len() > 0 && !names_method(&self.methods, &op.method) {
            return false;
        }
        if self.include_operations.len() > 0 && !is_one_of(
            &self.include_operations,
            &op.operation_id,
        ) {
            return false;
        }
        if is_one_of(&self.exclude_operations, &op.operation_id) {
            return false;
        }
        if self.include_tags.len() > 0 && !have_common(&op.tags, &self.include_tags) {
            return false;
        }
        !have_common(&op.tags, &self.exclude_tags)
    }
}

/// Whether one of `tags` is among `list`.
pub open spec fn shares(tags: Seq<Seq<char>>, list: Seq<Seq<char>>) -> bool {
    exists|i: int| 0 <= i < tags.len() && list.contains(#[trigger] tags[i])
}

/// Whether one of `tags` is among `list`.
fn have_common(tags: &Vec<String>, list: &Vec<String>) -> (r: bool)
    ensures
        r == shares(texts(tags@), texts(list@)),
{
    for i in 0..tags.len()
        invariant
            forall|j: int| 0 <= j < i ==> !texts(list@).contains(#[trigger] texts(tags@)[j]),
    {
        if is_one_of(list, &tags[i]) {
            assert(texts(tags@)[i as int] == tags@[i as int]@);
            return true;
        }
    }
    false
}

/// Whether `method` is among `methods`, in any case.
fn names_method(methods: &Vec<String>, method: &String) -> (r: bool)
    ensures
        r == exists|i: int|
            0 <= i < methods@.len() && lower((#[trigger] methods@[i])@) == lower(method@),
{
    for i in 0..methods.len()
        invariant
            forall|j: int| 0 <= j < i ==> lower((#[trigger] methods@[j])@) != lower(method@),
    {
        if same_ignoring_case(methods[i].as_str(), method.as_str()) {
            return true;
        }
    }
    false
}

}
