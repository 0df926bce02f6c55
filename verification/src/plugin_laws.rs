//! What a plugin makes of its configuration and of a binding, told from these alone.
use crate::config::{absent, SourceConfig};
use crate::document::{document_schemes, loaded, plan_of};
use crate::error::BackendErrorView;
use crate::json::{tree_of, JsonView};
use crate::plugin::{sources_configured, PluginView, ProfileView};
use crate::source::{configured, file_read, SourceView};
use crate::text::{blank, text_of};
use crate::text_map::{lookup, lookup_with_entry, text_entries};
use vstd::prelude::*;

verus! {

/// Whether a source is what its configuration says.
pub open spec fn is_configured_by(
    src: SourceView,
    config: SourceConfig,
    file: Result<String, String>,
) -> bool {
    &&& src.document == loaded(
        config.spec,
        match file {
            Ok(text) => Ok::<Seq<char>, Seq<char>>(text@),
            Err(e) => Err(e@),
        },
    )
    &&& src.config_base_url == text_of(config.base_url)
    &&& src.headers == text_entries(config.headers)
    &&& src.auth == text_entries(config.auth)
    &&& src.allow_private_backends == config.upstream_safety.allow_private_backends
    &&& src.allow_insecure_http == config.upstream_safety.allow_insecure_http
    &&& src.max_response_bytes == config.response.max_response_bytes
    &&& src.timeout_ms == config.response.timeout_ms
    &&& src.expose == config.expose
    &&& src.filter == config.filter
    &&& src.governance == tree_of(config.governance)
    &&& src.retry == tree_of(config.retry)
    &&& match src.document {
        Ok(root) => src.security_schemes == document_schemes(root),
        Err(_) => src.security_schemes.len() == 0,
    }
}

/// What is found among the first `n` sources.
proof fn source_of_last_config(
    list: Seq<(SourceConfig, Result<String, String>)>,
    n: int,
    q: Seq<char>,
)
    requires
        0 <= n <= list.len(),
    ensures
        (forall|i: int| 0 <= i < n ==> (#[trigger] list[i]).0.name@ != q) ==> lookup(
            sources_configured(list, n),
            q,
        ) is None,
        forall|i: int|
            0 <= i < n && (#[trigger] list[i]).0.name@ == q && (forall|j: int|
                i < j < n ==> (#[trigger] list[j]).0.name@ != q) ==> lookup(
                sources_configured(list, n),
                q,
            ) == Some(configured(list[i].0, list[i].1)),
    decreases n,
{
    if n > 0 {
        source_of_last_config(list, n - 1, q);
        lookup_with_entry(
            sources_configured(list, n - 1),
            list[n - 1].0.name@,
            configured(list[n - 1].0, list[n - 1].1),
            q,
        );
        assert forall|i: int|
            0 <= i < n && (#[trigger] list[i]).0.name@ == q && (forall|j: int|
                i < j < n ==> (#[trigger] list[j]).0.name@ != q) implies lookup(
            sources_configured(list, n),
            q,
        ) == Some(configured(list[i].0, list[i].1)) by {
            if i < n - 1 {
                assert(list[n - 1].0.name@ != q);
            }
        }
    } else {
        assert(lookup(sources_configured(list, n), q) is None);
    }
}

/// Every configured source is found under its name, as its configuration says; of several with
/// one name it is the last. No other source is there.
pub proof fn configured_source_is_found(
    list: Seq<(SourceConfig, Result<String, String>)>,
    q: Seq<char>,
)
    ensures
        (forall|i: int| 0 <= i < list.len() ==> (#[trigger] list[i]).0.name@ != q) ==> lookup(
            sources_configured(list, list.len() as int),
            q,
        ) is None,
        forall|i: int|
            0 <= i < list.len() && (#[trigger] list[i]).0.name@ == q && (forall|j: int|
                i < j < list.len() ==> (#[trigger] list[j]).0.name@ != q) ==> lookup(
                sources_configured(list, list.len() as int),
                q,
            ) is Some && is_configured_by(
                lookup(sources_configured(list, list.len() as int), q)->Some_0,
                list[i].0,
                list[i].1,
            ),
{
    source_of_last_config(list, list.len() as int, q);
    assert forall|i: int|
        0 <= i < list.len() && (#[trigger] list[i]).0.name@ == q && (forall|j: int|
            i < j < list.len() ==> (#[trigger] list[j]).0.name@ != q) implies lookup(
        sources_configured(list, list.len() as int),
        q,
    ) is Some && is_configured_by(
        lookup(sources_configured(list, list.len() as int), q)->Some_0,
        list[i].0,
        list[i].1,
    ) by {
        source_is_what_its_configuration_says(list[i].0, list[i].1);
    }
}

/// A source is what its configuration says, member by member.
pub proof fn source_is_what_its_configuration_says(
    config: SourceConfig,
    file: Result<String, String>,
)
    ensures
        is_configured_by(configured(config, file), config, file),
{
    assert(file_read(file) == match file {
        Ok(text) => Ok::<Seq<char>, Seq<char>>(text@),
        Err(e) => Err(e@),
    });
}

/// The base URL is the configured one or else the `url` of the first server of the document.
/// Where neither is there, there is none.
pub proof fn base_url_is_configured_or_of_first_server(src: SourceView, root: JsonView)
    ensures
        match src.config_base_url {
            Some(url) => src.base_url(root) == Ok::<Seq<char>, Seq<char>>(url),
            None => if (root.get("servers"@) matches Some(JsonView::Array(items)) && items.len() > 0
                && items[0].get("url"@) matches Some(JsonView::String(_))) {
                src.base_url(root) is Ok && root.get("servers"@)->Some_0->Array_0[0].get("url"@)
                    == Some(JsonView::String(src.base_url(root)->Ok_0))
            } else {
                src.base_url(root) == Err::<Seq<char>, Seq<char>>(
                    "no base_url configured and spec has no absolute servers[].url"@,
                )
            },
        },
{
}

/// Whether a URL is not encrypted.
pub open spec fn is_plain_http(url: Seq<char>) -> bool {
    seq!['h', 't', 't', 'p', ':', '/', '/'].is_prefix_of(url)
}

/// A binding is accepted exactly where it names a source and an operation, the source is known
/// and its document was read, there is a base URL that is encrypted or allowed not to be, and the
/// document has the operation. The profile is then that source, that URL and that operation's
/// plan.
pub proof fn binding_is_accepted_where_all_is_there(
    plugin: PluginView,
    source: Seq<char>,
    operation: Seq<char>,
)
    ensures
        plugin.bound(source, operation) is Ok <==> {
            &&& !blank(source)
            &&& !blank(operation)
            &&& lookup(plugin.sources, source) is Some
            &&& ({
                let src = lookup(plugin.sources, source)->Some_0;
                &&& src.document is Ok
                &&& src.base_url(src.document->Ok_0) is Ok
                &&& is_plain_http(src.base_url(src.document->Ok_0)->Ok_0)
                    ==> src.allow_insecure_http
                &&& plan_of(src.document->Ok_0, operation) is Ok
            })
        },
        plugin.bound(source, operation) is Ok ==> ({
            let src = lookup(plugin.sources, source)->Some_0;
            let p = plugin.bound(source, operation)->Ok_0;
            &&& p.source == source
            &&& p.base_url == src.base_url(src.document->Ok_0)->Ok_0
            &&& p.plan == plan_of(src.document->Ok_0, operation)->Ok_0
        }),
{
    reveal_strlit("http://");
    assert("http://"@ =~= seq!['h', 't', 't', 'p', ':', '/', '/']);
}

/// The error of a binding with the message `message`.
pub open spec fn refused(message: Seq<char>) -> Result<ProfileView, BackendErrorView> {
    Err(BackendErrorView::InvalidSpec { message })
}

/// A binding that is refused is told the first thing that is wrong with it.
pub proof fn refused_binding_is_told_why(
    plugin: PluginView,
    source: Seq<char>,
    operation: Seq<char>,
)
    ensures
        blank(source) ==> plugin.bound(source, operation) == refused(
            "openapi binding spec: `source` must not be empty"@,
        ),
        !blank(source) && blank(operation) ==> plugin.bound(source, operation) == refused(
            "openapi binding spec: `operation` must not be empty"@,
        ),
        !blank(source) && !blank(operation) ==> match lookup(plugin.sources, source) {
            None => plugin.bound(source, operation) == refused(
                "unknown openapi source '"@ + source + "'"@,
            ),
            Some(src) => match src.document {
                Err(e) => plugin.bound(source, operation) == refused(
                    "source '"@ + source + "' spec failed to load: "@ + e,
                ),
                Ok(root) => match src.base_url(root) {
                    Err(e) => plugin.bound(source, operation) == refused(
                        "source '"@ + source + "': "@ + e,
                    ),
                    Ok(url) => if is_plain_http(url) && !src.allow_insecure_http {
                        plugin.bound(source, operation) == refused(
                            "source '"@ + source + "': insecure http base_url '"@ + url
                                + "' (set allow_insecure_http)"@,
                        )
                    } else {
                        plan_of(root, operation) matches Err(e) ==> plugin.bound(source, operation)
                            == refused("source '"@ + source + "': "@ + e)
                    },
                },
            },
        },
{
    reveal_strlit("http://");
    assert("http://"@ =~= seq!['h', 't', 't', 'p', ':', '/', '/']);
}

/// A block of configuration is missing where it is blank or reads as null, and nowhere else.
pub proof fn missing_block_is_blank_or_null(block: Seq<char>, read: Option<JsonView>)
    ensures
        absent(block, read) <==> blank(block) || (read matches Some(JsonView::Null)),
{
}

}
