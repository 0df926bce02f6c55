//! A registered source: its document, read as far as it can be, and how to reach the service.
use crate::config::{ExposeConfig, FilterConfig, SourceConfig};
use crate::document::{document_schemes, loaded, schemes, ParsedSpec, SecurityScheme, SecuritySchemeView};
use crate::json::{tree_of, trees, Json, JsonView};
use crate::text::text_of;
use crate::text_map::{text_entries, TextMap};
use vstd::prelude::*;

verus! {

/// A registered source. A document that cannot be read is kept as the reason why.
#[derive(Debug)]
pub struct SourceRuntime {
    pub spec: Result<ParsedSpec, String>,
    pub config_base_url: Option<String>,
    pub headers: TextMap<String>,
    pub allow_private_backends: bool,
    pub allow_insecure_http: bool,
    pub max_response_bytes: usize,
    pub timeout_ms: u64,
    pub expose: Option<ExposeConfig>,
    pub filter: FilterConfig,
    pub governance: Option<Json>,
    pub retry: Option<Json>,
    /// The schemes that the document declares.
    pub security_schemes: TextMap<SecurityScheme>,
    /// The operator's secret per scheme.
    pub auth: TextMap<String>,
}

/// What a source is.
pub struct SourceView {
    pub document: Result<JsonView, Seq<char>>,
    pub config_base_url: Option<Seq<char>>,
    pub headers: Seq<(Seq<char>, Seq<char>)>,
    pub allow_private_backends: bool,
    pub allow_insecure_http: bool,
    pub max_response_bytes: usize,
    pub timeout_ms: u64,
    pub expose: Option<ExposeConfig>,
    pub filter: FilterConfig,
    pub governance: Option<JsonView>,
    pub retry: Option<JsonView>,
    pub security_schemes: Seq<(Seq<char>, SecuritySchemeView)>,
    pub auth: Seq<(Seq<char>, Seq<char>)>,
}

/// The tree of a document, or why it could not be read.
pub open spec fn document_of(spec: Result<ParsedSpec, String>) -> Result<JsonView, Seq<char>> {
    match spec {
        Ok(p) => Ok(p@),
        Err(e) => Err(e@),
    }
}

impl View for SourceRuntime {
    type V = SourceView;

    open spec fn view(&self) -> SourceView {
        SourceView {
            document: document_of(self.spec),
            config_base_url: text_of(self.config_base_url),
            headers: text_entries(self.headers),
            allow_private_backends: self.allow_private_backends,
            allow_insecure_http: self.allow_insecure_http,
            max_response_bytes: self.max_response_bytes,
            timeout_ms: self.timeout_ms,
            expose: self.expose,
            filter: self.filter,
            governance: tree_of(self.governance),
            retry: tree_of(self.retry),
            security_schemes: schemes(self.security_schemes),
            auth: text_entries(self.auth),
        }
    }
}

/// What a file held, or the wording of why it could not be read.
pub open spec fn file_read(file: Result<String, String>) -> Result<Seq<char>, Seq<char>> {
    match file {
        Ok(text) => Ok(text@),
        Err(e) => Err(e@),
    }
}

/// The schemes that a document declares; none where it could not be read.
pub open spec fn schemes_declared(document: Result<JsonView, Seq<char>>) -> Seq<
    (Seq<char>, SecuritySchemeView),
> {
    match document {
        Ok(root) => document_schemes(root),
        Err(_) => Seq::empty(),
    }
}

/// The source that a configuration makes. `file` is what the file of its document held.
pub open spec fn configured(src: SourceConfig, file: Result<String, String>) -> SourceView {
    let document = loaded(src.spec, file_read(file));
    SourceView {
        document,
        config_base_url: text_of(src.base_url),
        headers: text_entries(src.headers),
        allow_private_backends: src.upstream_safety.allow_private_backends,
        allow_insecure_http: src.upstream_safety.allow_insecure_http,
        max_response_bytes: src.response.max_response_bytes,
        timeout_ms: src.response.timeout_ms,
        expose: src.expose,
        filter: src.filter,
        governance: tree_of(src.governance),
        retry: tree_of(src.retry),
        security_schemes: schemes_declared(document),
        auth: text_entries(src.auth),
    }
}

impl SourceView {
    /// The base URL of the service: the configured one, or else that of the first server of
    /// the document.
    pub open spec fn base_url(self, root: JsonView) -> Result<Seq<char>, Seq<char>> {
        match self.config_base_url {
            Some(b) => Ok(b),
            None => match first_server(root) {
                Some(url) => Ok(url),
                None => Err("no base_url configured and spec has no absolute servers[].url"@),
            },
        }
    }
}

/// The URL of the first server of a document.
pub open spec fn first_server(root: JsonView) -> Option<Seq<char>> {
    match root.items_at("servers"@) {
        Some(items) => if items.len() > 0 {
            items[0].text_at("url"@)
        } else {
            None
        },
        None => None,
    }
}

impl SourceRuntime {
    /// Makes a source of its configuration. `file` is what the file of its document held, or
    /// the wording of why it could not be read; other documents leave it unread.
    pub fn from_config(src: SourceConfig, file: &Result<String, String>) -> (r: Self)
        ensures
            r@ == configured(src, *file),
    {
        let spec = ParsedSpec::load(&src.spec, file);
        let security_schemes = match &spec {
            Ok(p) => p.security_schemes(),
            Err(_) => {
                let none: TextMap<SecurityScheme> = TextMap::new();
                assert(schemes(none) =~= Seq::empty());
                none
            },
        };
        SourceRuntime {
            spec,
            config_base_url: src.base_url,
            headers: src.headers,
            allow_private_backends: src.upstream_safety.allow_private_backends,
            allow_insecure_http: src.upstream_safety.allow_insecure_http,
            max_response_bytes: src.response.max_response_bytes,
            timeout_ms: src.response.timeout_ms,
            expose: src.expose,
            filter: src.filter,
            governance: src.governance,
            retry: src.retry,
            security_schemes,
            auth: src.auth,
        }
    }
}

/// The base URL of the service: the configured one, or else that of the first server of the
/// document.
pub fn resolve_base_url(src: &SourceRuntime, spec: &ParsedSpec) -> (r: Result<String, String>)
    ensures
        src@.base_url(spec@) == (match r {
            Ok(url) => Ok::<Seq<char>, Seq<char>>(url@),
            Err(e) => Err(e@),
        }),
{
    if let Some(b) = &src.config_base_url {
        return Ok(b.clone());
    }
    if let Some(servers) = spec.root.items_at("servers") {
        if servers.len() > 0 {
            assert(trees(servers@)[0] == servers@[0]@);
            if let Some(url) = servers[0].text_at("url") {
                return Ok(url.to_owned());
            }
        }
    }
    Err("no base_url configured and spec has no absolute servers[].url".to_owned())
}

}
