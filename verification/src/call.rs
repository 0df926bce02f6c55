//! A call from its arguments to the request that goes out.
//!
//! The steps are separate, as the outside world acts between them: the arguments are laid out
//! as a request, the host replaces the credentials in headers and secrets, the secrets and the
//! URL complete the request, and the exchange is answered.
use crate::address::{full_url, is_sure_to_fit, request_url, url_fits, url_surely_fits};
use crate::codec::json_read_bytes;
use crate::credentials::{
    auth_resolved, auth_values, headers_merged, headers_resolved, inject_auth, merge_headers,
    secrets_for, uris_needed, Credited,
};
use crate::error::{invalid, BackendError, BackendErrorView};
use crate::json::{no_members, tree_of, Json, JsonView};
use crate::plugin::{OpenapiBackendPlugin, PluginView, ProfileRuntime, ProfileView};
use crate::request::{build_request, PreparedRequest, PreparedRequestView};
use crate::source::{SourceRuntime, SourceView};
use crate::text::{lower, pair_texts, same_ignoring_case};
use crate::text_map::{mapped, text_entries, TextMap};
use vstd::prelude::*;

verus! {

/// The arguments in a payload; what cannot be read counts as none.
pub open spec fn arguments(read: Option<JsonView>) -> JsonView {
    match read {
        Some(args) => args,
        None => JsonView::Object(Seq::empty()),
    }
}

/// The arguments of a call whose payload was read as `read`.
pub fn arguments_or_none(read: Option<Json>) -> (r: Json)
    ensures
        r@ == arguments(tree_of(read)),
{
    match read {
        Some(args) => args,
        None => Json::from_members(no_members()),
    }
}

/// Reads the arguments of a call from its payload. An empty payload has none.
pub fn read_arguments(payload: &[u8]) -> (r: Json)
    ensures
        payload@.len() == 0 ==> r@ == JsonView::Object(Seq::empty()),
        payload@.len() > 0 ==> r@ == arguments(json_read_bytes(payload@)),
{
    if payload.len() == 0 {
        arguments_or_none(None)
    } else {
        arguments_or_none(Json::read_bytes(payload))
    }
}

/// The value of the first header called `name`, in any case, from `i` on.
pub open spec fn header_from(
    headers: Seq<(Seq<char>, Seq<char>)>,
    name: Seq<char>,
    i: int,
) -> Option<Seq<char>>
    decreases headers.len() - i,
{
    if i < 0 || i >= headers.len() {
        None
    } else if lower(headers[i].0) == lower(name) {
        Some(headers[i].1)
    } else {
        header_from(headers, name, i + 1)
    }
}

/// The name of the tool that is called: what a header says, or else the profile.
pub open spec fn tool_called(headers: Seq<(Seq<char>, Seq<char>)>, profile: Seq<char>) -> Seq<
    char,
> {
    match header_from(headers, "mcpg-tool-name"@, 0) {
        Some(name) => name,
        None => profile,
    }
}

/// The name of the tool that is called: what a header says, or else the profile.
pub fn tool_name(headers: &Vec<(String, String)>, profile: &str) -> (r: String)
    ensures
        r@ == tool_called(pair_texts(headers@), profile@),
{
    for i in 0..headers.len()
        invariant
            header_from(pair_texts(headers@), "mcpg-tool-name"@, 0) == header_from(
                pair_texts(headers@),
                "mcpg-tool-name"@,
                i as int,
            ),
    {
        assert(pair_texts(headers@)[i as int] == (headers@[i as int].0@, headers@[i as int].1@));
        if same_ignoring_case(headers[i].0.as_str(), "mcpg-tool-name") {
            return headers[i].1.clone();
        }
    }
    profile.to_owned()
}

/// A call whose arguments are laid out.
#[derive(Debug)]
pub struct PreparedCall {
    pub prepared: PreparedRequest,
    /// The fixed headers of the source, with the header parameters over them.
    pub headers: TextMap<String>,
    /// The operator's secrets for the schemes of the operation.
    pub auth: TextMap<String>,
}

/// What a prepared call is.
pub struct PreparedCallView {
    pub prepared: PreparedRequestView,
    pub headers: Seq<(Seq<char>, Seq<char>)>,
    pub auth: Seq<(Seq<char>, Seq<char>)>,
}

impl View for PreparedCall {
    type V = PreparedCallView;

    open spec fn view(&self) -> PreparedCallView {
        PreparedCallView {
            prepared: self.prepared@,
            headers: text_entries(self.headers),
            auth: text_entries(self.auth),
        }
    }
}

/// The request that goes out, but for its method and body.
#[derive(Debug)]
pub struct OutgoingRequest {
    pub url: String,
    pub headers: Vec<(String, String)>,
}

/// What an outgoing request is.
pub struct OutgoingRequestView {
    pub url: Seq<char>,
    pub headers: Seq<(Seq<char>, Seq<char>)>,
}

impl View for OutgoingRequest {
    type V = OutgoingRequestView;

    open spec fn view(&self) -> OutgoingRequestView {
        OutgoingRequestView { url: self.url@, headers: pair_texts(self.headers@) }
    }
}

impl PluginView {
    /// The profile of a call and its source, or that nothing is registered.
    pub open spec fn called(self, profile_name: Seq<char>) -> Result<
        (ProfileView, SourceView),
        BackendErrorView,
    > {
        match self.profile(profile_name) {
            None => Err(BackendErrorView::ProfileNotFound { backend_name: profile_name }),
            Some(p) => match self.source(p.source) {
                None => Err(BackendErrorView::ProfileNotFound { backend_name: p.source }),
                Some(src) => Ok((p, src)),
            },
        }
    }
}

impl OpenapiBackendPlugin {
    /// The profile of a call and its source.
    pub fn target(&self, profile_name: &str) -> (r: Result<
        (&ProfileRuntime, &SourceRuntime),
        BackendError,
    >)
        ensures
            self@.called(profile_name@) == (match r {
                Ok((p, src)) => Ok::<(ProfileView, SourceView), BackendErrorView>((p@, src@)),
                Err(e) => Err(e@),
            }),
    {
        match self.profile(profile_name) {
            None => Err(BackendError::ProfileNotFound { backend_name: profile_name.to_owned() }),
            Some(p) => match self.source(p.source.as_str()) {
                None => Err(BackendError::ProfileNotFound { backend_name: p.source.clone() }),
                Some(src) => Ok((p, src)),
            },
        }
    }
}

/// The call that arguments make under a profile, or why they make none.
pub open spec fn call_prepared(profile: ProfileView, src: SourceView, args: JsonView) -> Result<
    PreparedCallView,
    BackendErrorView,
> {
    match profile.plan.request(args) {
        Err(e) => Err(invalid(e)),
        Ok(prepared) => Ok(
            PreparedCallView {
                prepared,
                headers: headers_merged(
                    src.headers,
                    prepared.header_params,
                    prepared.header_params.len() as int,
                ),
                auth: secrets_for(
                    profile.plan.auth_schemes,
                    src.auth,
                    profile.plan.auth_schemes.len() as int,
                ),
            },
        ),
    }
}

/// Lays out the arguments of a call.
pub fn prepare_call(profile: &ProfileRuntime, src: &SourceRuntime, args: &Json) -> (r: Result<
    PreparedCall,
    BackendError,
>)
    ensures
        call_prepared(profile@, src@, args@) == (match r {
            Ok(call) => Ok::<PreparedCallView, BackendErrorView>(call@),
            Err(e) => Err(e@),
        }),
{
    match build_request(&profile.plan, args) {
        Err(message) => Err(BackendError::InvalidSpec { message }),
        Ok(prepared) => {
            let headers = merge_headers(&src.headers, &prepared.header_params);
            let auth = auth_values(&profile.plan.auth_schemes, &src.auth);
            Ok(PreparedCall { prepared, headers, auth })
        },
    }
}

/// The values that are scanned for credentials, and in which credentials are replaced: the
/// source's own headers, as the operator wrote them, and the operator's secrets for the call.
/// The headers of the call, which hold what a caller sent, are not among them.
pub fn values_scanned(src: &SourceRuntime, call: &PreparedCall) -> (r: (
    TextMap<String>,
    TextMap<String>,
))
    ensures
        text_entries(r.0) == src@.headers,
        text_entries(r.1) == call@.auth,
{
    (src.headers.copy_texts(), call.auth.copy_texts())
}

impl PreparedCallView {
    /// The credentials that are asked for, where `tokens_of` gives the tokens of a value.
    pub open spec fn credentials_asked(
        self,
        src: SourceView,
        tokens_of: spec_fn(Seq<char>) -> Seq<Seq<char>>,
    ) -> Seq<Seq<char>> {
        uris_needed(mapped(src.headers, tokens_of), mapped(self.auth, tokens_of))
    }

    /// The call once its credentials are in place: `replaced` takes a value to what it reads
    /// with its tokens replaced.
    pub open spec fn with_credentials(
        self,
        src: SourceView,
        tokens_of: spec_fn(Seq<char>) -> Seq<Seq<char>>,
        replaced: spec_fn(Seq<char>) -> Seq<char>,
    ) -> PreparedCallView {
        PreparedCallView {
            prepared: self.prepared,
            headers: headers_resolved(
                self.headers,
                mapped(src.headers, tokens_of),
                mapped(src.headers, replaced),
            ),
            auth: auth_resolved(self.auth, mapped(self.auth, replaced)),
        }
    }

    /// Headers and query of the request, with the secrets as their schemes say.
    pub open spec fn credited(self, profile: ProfileView, src: SourceView) -> Credited {
        Credited { headers: self.headers, query: self.prepared.query }.with_secrets(
            profile.plan.auth_schemes,
            src.security_schemes,
            self.auth,
            profile.plan.auth_schemes.len() as int,
        )
    }

    /// The request that goes out, or why there is none.
    pub open spec fn outgoing(self, profile: ProfileView, src: SourceView) -> Result<
        OutgoingRequestView,
        BackendErrorView,
    > {
        let credited = self.credited(profile, src);
        match request_url(profile.base_url, self.prepared.relative_path, credited.query) {
            Ok(url) => Ok(OutgoingRequestView { url, headers: credited.headers }),
            Err(e) => Err(invalid(e)),
        }
    }

    /// Whether the URL of the request fits.
    pub open spec fn fits(self, profile: ProfileView, src: SourceView) -> bool {
        url_fits(
            profile.base_url,
            self.prepared.relative_path,
            self.credited(profile, src).query,
        )
    }

    /// Whether the URL of the request is sure to fit.
    pub open spec fn surely_fits(self, profile: ProfileView, src: SourceView) -> bool {
        url_surely_fits(
            profile.base_url,
            self.prepared.relative_path,
            self.credited(profile, src).query,
        )
    }
}

/// A copy of a list of pairs.
fn copy_pairs(list: &Vec<(String, String)>) -> (r: Vec<(String, String)>)
    ensures
        pair_texts(r@) == pair_texts(list@),
{
    let mut r: Vec<(String, String)> = Vec::new();
    for i in 0..list.len()
        invariant
            r@.len() == i,
            forall|j: int|
                0 <= j < i ==> (#[trigger] r@[j]).0@ == list@[j].0@ && r@[j].1@ == list@[j].1@,
    {
        r.push((list[i].0.clone(), list[i].1.clone()));
    }
    assert(pair_texts(r@) =~= pair_texts(list@));
    r
}

/// Headers and query of the request of a call, with the secrets as their schemes say.
fn credit_call(profile: &ProfileRuntime, src: &SourceRuntime, call: &PreparedCall) -> (r: (
    TextMap<String>,
    Vec<(String, String)>,
))
    ensures
        text_entries(r.0) == call@.credited(profile@, src@).headers,
        pair_texts(r.1@) == call@.credited(profile@, src@).query,
{
    let mut headers = call.headers.copy_texts();
    let mut query = copy_pairs(&call.prepared.query);
    inject_auth(
        &mut headers,
        &mut query,
        &profile.plan.auth_schemes,
        &src.security_schemes,
        &call.auth,
    );
    (headers, query)
}

/// Completes the request of a call with its secrets and its URL.
pub fn address_call(profile: &ProfileRuntime, src: &SourceRuntime, call: &PreparedCall) -> (r: Result<
    OutgoingRequest,
    BackendError,
>)
    requires
        call@.fits(profile@, src@),
    ensures
        call@.outgoing(profile@, src@) == (match r {
            Ok(out) => Ok::<OutgoingRequestView, BackendErrorView>(out@),
            Err(e) => Err(e@),
        }),
{
    let (headers, query) = credit_call(profile, src, call);
    let url = full_url(
        profile.base_url.as_str(),
        call.prepared.relative_path.as_str(),
        &query,
    );
    match url {
        Ok(url) => Ok(OutgoingRequest { url, headers: headers.pairs() }),
        Err(message) => Err(BackendError::InvalidSpec { message }),
    }
}

/// Completes the request of a call where its URL is sure to fit. `None` says that this cannot be
/// told beforehand.
pub fn address_call_within_limits(
    profile: &ProfileRuntime,
    src: &SourceRuntime,
    call: &PreparedCall,
) -> (r: Option<Result<OutgoingRequest, BackendError>>)
    ensures
        r is Some <==> call@.surely_fits(profile@, src@),
        r is Some ==> call@.outgoing(profile@, src@) == (match r->Some_0 {
            Ok(out) => Ok::<OutgoingRequestView, BackendErrorView>(out@),
            Err(e) => Err(e@),
        }),
{
    let (_, query) = credit_call(profile, src, call);
    if is_sure_to_fit(
        profile.base_url.as_str(),
        call.prepared.relative_path.as_str(),
        &query,
    ) {
        Some(address_call(profile, src, call))
    } else {
        None
    }
}

}
