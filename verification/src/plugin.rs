//! The registry of sources and of the profiles that are bound to their operations.
use crate::capability::{expand_source, sources_expanded, CapabilitySet, CapabilitySetView};
use crate::config::{BindingSpec, SourceConfig};
use crate::document::plan_of;
use crate::error::{invalid, BackendError, BackendErrorView};
use crate::json::{members, no_members, object_of, put, tree_of, Json, JsonView};
use crate::plan::{OperationPlan, OperationPlanView};
use crate::source::{configured, resolve_base_url, schemes_declared, SourceRuntime, SourceView};
use crate::text::{begins_with, blank, is_blank, join3, join5};
use crate::text_map::{
    lookup, lookup_in_mapped, mapped, with_entry, with_entry_adds_one, with_entry_in_mapped, TextMap,
};
use vstd::prelude::*;

verus! {

/// A profile: one operation of one source.
#[derive(Debug, Clone)]
pub struct ProfileRuntime {
    pub source: String,
    pub base_url: String,
    pub plan: OperationPlan,
}

/// What a profile is.
pub struct ProfileView {
    pub source: Seq<char>,
    pub base_url: Seq<char>,
    pub plan: OperationPlanView,
}

impl View for ProfileRuntime {
    type V = ProfileView;

    open spec fn view(&self) -> ProfileView {
        ProfileView { source: self.source@, base_url: self.base_url@, plan: self.plan@ }
    }
}

/// The plugin: its sources, and the profiles registered so far.
#[derive(Debug)]
pub struct OpenapiBackendPlugin {
    pub sources: TextMap<SourceRuntime>,
    pub profiles: TextMap<ProfileRuntime>,
}

/// What the plugin is.
pub struct PluginView {
    pub sources: Seq<(Seq<char>, SourceView)>,
    pub profiles: Seq<(Seq<char>, ProfileView)>,
}

/// The sources of a map.
pub open spec fn source_views(m: TextMap<SourceRuntime>) -> Seq<(Seq<char>, SourceView)> {
    mapped(m.entries(), |s: SourceRuntime| s@)
}

/// The profiles of a map.
pub open spec fn profile_views(m: TextMap<ProfileRuntime>) -> Seq<(Seq<char>, ProfileView)> {
    mapped(m.entries(), |p: ProfileRuntime| p@)
}

impl View for OpenapiBackendPlugin {
    type V = PluginView;

    open spec fn view(&self) -> PluginView {
        PluginView {
            sources: source_views(self.sources),
            profiles: profile_views(self.profiles),
        }
    }
}

/// The first `n` configured sources, by name. Of two with one name the later one stays.
pub open spec fn sources_configured(
    list: Seq<(SourceConfig, Result<String, String>)>,
    n: int,
) -> Seq<(Seq<char>, SourceView)>
    decreases n,
{
    if n <= 0 {
        Seq::empty()
    } else {
        with_entry(
            sources_configured(list, n - 1),
            list[n - 1].0.name@,
            configured(list[n - 1].0, list[n - 1].1),
        )
    }
}

/// What a client for a source is built from.
#[derive(Debug, Clone)]
pub struct ClientProfile {
    pub url: String,
    pub max_response_bytes: usize,
    pub timeout_ms: u64,
    pub allow_private_backends: bool,
}

impl PluginView {
    /// The source called `name`.
    pub open spec fn source(self, name: Seq<char>) -> Option<SourceView> {
        lookup(self.sources, name)
    }

    /// The profile called `name`.
    pub open spec fn profile(self, name: Seq<char>) -> Option<ProfileView> {
        lookup(self.profiles, name)
    }

    /// The profile that a binding to a source makes, or why it makes none.
    pub open spec fn bound_to(
        source: Seq<char>,
        operation: Seq<char>,
        src: SourceView,
    ) -> Result<ProfileView, BackendErrorView> {
        match src.document {
            Err(e) => Err(invalid("source '"@ + source + "' spec failed to load: "@ + e)),
            Ok(root) => match src.base_url(root) {
                Err(e) => Err(invalid("source '"@ + source + "': "@ + e)),
                Ok(base_url) => if "http://"@.is_prefix_of(base_url) && !src.allow_insecure_http {
                    Err(
                        invalid(
                            "source '"@ + source + "': insecure http base_url '"@ + base_url
                                + "' (set allow_insecure_http)"@,
                        ),
                    )
                } else {
                    match plan_of(root, operation) {
                        Err(e) => Err(invalid("source '"@ + source + "': "@ + e)),
                        Ok(plan) => Ok(ProfileView { source, base_url, plan }),
                    }
                },
            },
        }
    }

    /// The profile that a binding makes, or why it makes none.
    pub open spec fn bound(self, source: Seq<char>, operation: Seq<char>) -> Result<
        ProfileView,
        BackendErrorView,
    > {
        if blank(source) {
            Err(invalid("openapi binding spec: `source` must not be empty"@))
        } else if blank(operation) {
            Err(invalid("openapi binding spec: `operation` must not be empty"@))
        } else {
            match self.source(source) {
                None => Err(invalid("unknown openapi source '"@ + source + "'"@)),
                Some(src) => PluginView::bound_to(source, operation, src),
            }
        }
    }

    /// Whether every source knows the schemes of its document, and every profile is what a
    /// binding to its source makes.
    pub open spec fn well_formed(self) -> bool {
        &&& forall|i: int|
            0 <= i < self.sources.len() ==> (#[trigger] self.sources[i]).1.security_schemes
                == schemes_declared(self.sources[i].1.document)
        &&& forall|i: int|
            0 <= i < self.profiles.len() ==> ({
                let p = (#[trigger] self.profiles[i]).1;
                self.bound(p.source, p.plan.operation_id) == Ok::<ProfileView, BackendErrorView>(p)
            })
    }

    /// What is recorded of a call under a profile.
    pub open spec fn audit(self, name: Seq<char>) -> Seq<(Seq<char>, JsonView)> {
        let base = seq![("openapi.transport"@, JsonView::String("plugin"@))];
        match self.profile(name) {
            Some(p) => object_of(
                base.push(("openapi.source"@, JsonView::String(p.source))).push(
                    ("openapi.operation_id"@, JsonView::String(p.plan.operation_id)),
                ),
            ),
            None => object_of(base),
        }
    }
}

/// Sources that were configured know the schemes of their documents.
proof fn configured_sources_know_schemes(
    list: Seq<(SourceConfig, Result<String, String>)>,
    n: int,
    i: int,
)
    requires
        0 <= i < sources_configured(list, n).len(),
    ensures
        sources_configured(list, n)[i].1.security_schemes == schemes_declared(
            sources_configured(list, n)[i].1.document,
        ),
    decreases n,
{
    if n > 0 {
        let done = sources_configured(list, n - 1);
        let name = list[n - 1].0.name@;
        let src = configured(list[n - 1].0, list[n - 1].1);
        with_entry_adds_one(done, name, src, i);
        let e = sources_configured(list, n)[i];
        if done.contains(e) {
            let j = choose|j: int| 0 <= j < done.len() && done[j] == e;
            configured_sources_know_schemes(list, n - 1, j);
        }
    }
}

impl OpenapiBackendPlugin {
    /// The kind of backend that this is.
    pub fn kind(&self) -> (r: &'static str)
        ensures
            r@ == "openapi"@,
    {
        "openapi"
    }

    /// Builds the plugin from its configured sources. With each comes what the file of its
    /// document held, or the wording of why it could not be read. A source whose document
    /// cannot be used is kept: a binding to it says why.
    pub fn from_config(list: Vec<(SourceConfig, Result<String, String>)>) -> (r: Self)
        ensures
            r@.sources == sources_configured(list@, list@.len() as int),
            r@.profiles == Seq::<(Seq<char>, ProfileView)>::empty(),
            r@.well_formed(),
    {
        let ghost all = list@;
        let mut sources: TextMap<SourceRuntime> = TextMap::new();
        assert(source_views(sources) =~= Seq::empty());
        for entry in it: list.into_iter()
            invariant
                it.seq() == all,
                source_views(sources) == sources_configured(all, it.index() as int),
        {
            let (src, file) = entry;
            let name = src.name.clone();
            let runtime = SourceRuntime::from_config(src, &file);
            proof {
                with_entry_in_mapped(
                    sources.entries(),
                    |s: SourceRuntime| s@,
                    name@,
                    runtime,
                );
            }
            sources.insert(name, runtime);
        }
        let r = OpenapiBackendPlugin { sources, profiles: TextMap::new() };
        assert(r@.profiles =~= Seq::<(Seq<char>, ProfileView)>::empty());
        proof {
            assert forall|i: int| 0 <= i < r@.sources.len() implies (#[trigger] r@.sources[i]).1.security_schemes
                == schemes_declared(r@.sources[i].1.document) by {
                configured_sources_know_schemes(all, all.len() as int, i);
            }
        }
        r
    }

    /// The source called `name`.
    pub fn source(&self, name: &str) -> (r: Option<&SourceRuntime>)
        ensures
            match r {
                Some(s) => self@.source(name@) == Some(s@),
                None => self@.source(name@) is None,
            },
    {
        proof {
            lookup_in_mapped(self.sources.entries(), |s: SourceRuntime| s@, name@);
        }
        self.sources.get(name)
    }

    /// The profile called `name`.
    pub fn profile(&self, name: &str) -> (r: Option<&ProfileRuntime>)
        ensures
            match r {
                Some(p) => self@.profile(name@) == Some(p@),
                None => self@.profile(name@) is None,
            },
    {
        proof {
            lookup_in_mapped(self.profiles.entries(), |p: ProfileRuntime| p@, name@);
        }
        self.profiles.get(name)
    }

    /// Checks a binding and makes its profile. The client for the source is built next, and
    /// the profile is added once that has worked.
    pub fn bind(&self, binding: &BindingSpec) -> (r: Result<ProfileRuntime, BackendError>)
        ensures
            self@.bound(binding.source@, binding.operation@) == (match r {
                Ok(p) => Ok::<ProfileView, BackendErrorView>(p@),
                Err(e) => Err(e@),
            }),
    {
        let source = binding.source.as_str();
        if is_blank(source) {
            return Err(
                BackendError::InvalidSpec {
                    message: "openapi binding spec: `source` must not be empty".to_owned(),
                },
            );
        }
        if is_blank(binding.operation.as_str()) {
            return Err(
                BackendError::InvalidSpec {
                    message: "openapi binding spec: `operation` must not be empty".to_owned(),
                },
            );
        }
        let src = match self.source(source) {
            Some(src) => src,
            None => {
                return Err(
                    BackendError::InvalidSpec {
                        message: join3("unknown openapi source '", source, "'"),
                    },
                );
            },
        };
        let parsed = match &src.spec {
            Ok(parsed) => parsed,
            Err(e) => {
                let mut message = join3("source '", source, "' spec failed to load: ");
                message.append(e.as_str());
                return Err(BackendError::InvalidSpec { message });
            },
        };
        let base_url = match resolve_base_url(src, parsed) {
            Ok(url) => url,
            Err(e) => {
                return Err(about_source(source, e.as_str()));
            },
        };
        if begins_with(base_url.as_str(), "http://") && !src.allow_insecure_http {
            return Err(
                BackendError::InvalidSpec {
                    message: join5(
                        "source '",
                        source,
                        "': insecure http base_url '",
                        base_url.as_str(),
                        "' (set allow_insecure_http)",
                    ),
                },
            );
        }
        match parsed.operation_plan(binding.operation.as_str()) {
            Ok(plan) => Ok(ProfileRuntime { source: binding.source.clone(), base_url, plan }),
            Err(e) => Err(about_source(source, e.as_str())),
        }
    }

    /// Registers a profile under `name`, in place of one that had the name before.
    pub fn add_profile(&mut self, name: &str, profile: ProfileRuntime)
        ensures
            final(self)@.sources == old(self)@.sources,
            final(self)@.profiles == with_entry(old(self)@.profiles, name@, profile@),
            old(self)@.well_formed() && old(self)@.bound(
                profile@.source,
                profile@.plan.operation_id,
            ) == Ok::<ProfileView, BackendErrorView>(profile@) ==> final(self)@.well_formed(),
    {
        let ghost before = self@;
        proof {
            with_entry_in_mapped(self.profiles.entries(), |p: ProfileRuntime| p@, name@, profile);
        }
        self.profiles.insert(name.to_owned(), profile);
        proof {
            if before.well_formed() && before.bound(profile@.source, profile@.plan.operation_id)
                == Ok::<ProfileView, BackendErrorView>(profile@) {
                let after = self@;
                assert forall|i: int| 0 <= i < after.profiles.len() implies ({
                    let p = (#[trigger] after.profiles[i]).1;
                    after.bound(p.source, p.plan.operation_id) == Ok::<
                        ProfileView,
                        BackendErrorView,
                    >(p)
                }) by {
                    with_entry_adds_one(before.profiles, name@, profile@, i);
                    let e = after.profiles[i];
                    if before.profiles.contains(e) {
                        let j = choose|j: int|
                            0 <= j < before.profiles.len() && before.profiles[j] == e;
                        assert(before.profiles[j].1 == e.1);
                    }
                }
            }
        }
    }

    /// What a client for a source is built from.
    pub fn client_profile(&self, source: &str, base_url: &str) -> (r: Result<
        ClientProfile,
        BackendError,
    >)
        ensures
            match r {
                Ok(c) => ({
                    &&& self@.source(source@) is Some
                    &&& c.url@ == base_url@
                    &&& c.max_response_bytes == self@.source(source@)->Some_0.max_response_bytes
                    &&& c.timeout_ms == self@.source(source@)->Some_0.timeout_ms
                    &&& c.allow_private_backends == self@.source(
                        source@,
                    )->Some_0.allow_private_backends
                }),
                Err(e) => self@.source(source@) is None && e@ == (BackendErrorView::ProfileNotFound {
                    backend_name: source@,
                }),
            },
    {
        match self.source(source) {
            Some(src) => Ok(
                ClientProfile {
                    url: base_url.to_owned(),
                    max_response_bytes: src.max_response_bytes,
                    timeout_ms: src.timeout_ms,
                    allow_private_backends: src.allow_private_backends,
                },
            ),
            None => Err(BackendError::ProfileNotFound { backend_name: source.to_owned() }),
        }
    }

    /// The input schema of a profile.
    pub fn input_schema(&self, profile_name: &str) -> (r: Option<Json>)
        ensures
            tree_of(r) == (match self@.profile(profile_name@) {
                Some(p) => Some(p.plan.input_schema()),
                None => None,
            }),
    {
        match self.profile(profile_name) {
            Some(p) => Some(p.plan.input_schema()),
            None => None,
        }
    }

    /// The output schema of a profile, where its operation has one.
    pub fn output_schema(&self, profile_name: &str) -> (r: Option<Json>)
        ensures
            tree_of(r) == (match self@.profile(profile_name@) {
                Some(p) => p.plan.output_schema,
                None => None,
            }),
    {
        match self.profile(profile_name) {
            Some(p) => match &p.plan.output_schema {
                Some(schema) => Some(schema.clone()),
                None => None,
            },
            None => None,
        }
    }

    /// All that the sources expose in bulk. A source that would exceed its cap has the whole
    /// expansion refused.
    pub fn expand_capabilities(&self) -> (r: Result<CapabilitySet, BackendError>)
        ensures
            sources_expanded(self@.sources, self@.sources.len() as int) == (match r {
                Ok(set) => Ok::<CapabilitySetView, BackendErrorView>(set@),
                Err(e) => Err(e@),
            }),
    {
        let mut all = CapabilitySet { tools: Vec::new(), resource_templates: Vec::new() };
        let ghost sources = self@.sources;
        assert(all@ =~= CapabilitySetView::none());
        let n = self.sources.len();
        for i in 0..n
            invariant
                n == self.sources.entries().len(),
                sources == self@.sources,
                sources_expanded(sources, i as int) == Ok::<CapabilitySetView, BackendErrorView>(
                    all@,
                ),
        {
            let name = self.sources.key_at(i);
            let src = self.sources.value_at(i);
            assert(sources[i as int] == (name@, src@));
            match expand_source(name.as_str(), src) {
                Ok(more) => {
                    let ghost done = all@;
                    let ghost added = more@;
                    let CapabilitySet { mut tools, mut resource_templates } = more;
                    all.tools.append(&mut tools);
                    all.resource_templates.append(&mut resource_templates);
                    assert(all@ =~= done.with(added));
                },
                Err(e) => {
                    proof {
                        expansion_stops(sources, i + 1, sources.len() as int);
                    }
                    return Err(e);
                },
            }
        }
        Ok(all)
    }

    /// What is recorded of a call under a profile.
    pub fn audit_metadata(&self, profile_name: &str) -> (r: TextMap<Json>)
        ensures
            members(r) == self@.audit(profile_name@),
    {
        let mut map = no_members();
        let ghost base = seq![("openapi.transport"@, JsonView::String("plugin"@))];
        put(&mut map, "openapi.transport", Json::from_text("plugin"));
        proof {
            reveal_with_fuel(object_of, 2);
            assert(base.drop_last() =~= Seq::empty());
        }
        assert(members(map) == object_of(base));
        if let Some(p) = self.profile(profile_name) {
            let ghost second = base.push(("openapi.source"@, JsonView::String(p@.source)));
            let ghost third = second.push(
                ("openapi.operation_id"@, JsonView::String(p@.plan.operation_id)),
            );
            put(&mut map, "openapi.source", Json::from_text(p.source.as_str()));
            assert(second.drop_last() =~= base);
            assert(members(map) == object_of(second));
            put(
                &mut map,
                "openapi.operation_id",
                Json::from_text(p.plan.operation_id.as_str()),
            );
            assert(third.drop_last() =~= second);
            assert(members(map) == object_of(third));
        }
        map
    }
}

/// Once a source is refused, so is the whole expansion.
proof fn expansion_stops(sources: Seq<(Seq<char>, SourceView)>, m: int, n: int)
    requires
        m <= n,
        sources_expanded(sources, m) is Err,
    ensures
        sources_expanded(sources, n) == sources_expanded(sources, m),
    decreases n - m,
{
    if m < n {
        expansion_stops(sources, m, n - 1);
    }
}

/// What is wrong with a source.
fn about_source(source: &str, what: &str) -> (r: BackendError)
    ensures
        r@ == invalid("source '"@ + source@ + "': "@ + what@),
{
    let mut message = join3("source '", source, "': ");
    message.append(what);
    BackendError::InvalidSpec { message }
}

}
