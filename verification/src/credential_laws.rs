//! Which credentials are asked for, what is sent of them, and the URL that a call goes to.
use crate::address::{
    form_encoded, pair_has_its_size, path_below, path_written, query_size,
    query_with, request_url, url_fits, url_read, url_surely_fits, Coding,
};
use crate::call::{call_prepared, PreparedCallView};
use crate::credentials::{asked, given, text_members, tokens_in, Credited};
use crate::document::SecuritySchemeView;
use crate::error::BackendErrorView;
use crate::json::{object_of, JsonView};
use crate::laws::{
    entry_holds_its_value, lookup_behind, merged_header_is_found, names_in_order,
    object_holds_no_more, only_carried_credentials_are_asked_for, only_needed_secrets_are_taken,
    resolved_secret_is_used, secret_leaves_other_headers, unconfigured_header_is_never_resolved,
    writes_header,
};
use crate::plugin::ProfileView;
use crate::request_laws::{hex_digit_value, rising};
use crate::source::SourceView;
use crate::text::{before, before_is_total};
use crate::text_laws::trailing_run_is_taken_off;
use crate::text_map::{
    ascending, lookup, lookup_finds_entry, lookup_in_mapped, lookup_with_entry, mapped,
};
use vstd::prelude::*;
use vstd::utf8::encode_utf8;

verus! {

// What the host is asked and gives.

/// What an object of texts under themselves holds.
proof fn text_stands_under_itself(uris: Seq<Seq<char>>, q: Seq<char>)
    ensures
        ({
            let pairs = uris.map_values(|u: Seq<char>| (u, JsonView::String(u)));
            lookup(object_of(pairs), q) == (if uris.contains(q) {
                Some(JsonView::String(q))
            } else {
                None
            })
        }),
    decreases uris.len(),
{
    let f = |u: Seq<char>| (u, JsonView::String(u));
    let pairs = uris.map_values(f);
    if uris.len() == 0 {
        object_holds_no_more(pairs, q);
    } else {
        let init = uris.drop_last();
        text_stands_under_itself(init, q);
        assert(pairs.drop_last() =~= init.map_values(f));
        lookup_with_entry(object_of(pairs.drop_last()), pairs.last().0, pairs.last().1, q);
        assert(pairs.last() == (uris.last(), JsonView::String(uris.last())));
        if init.contains(q) {
            let i = choose|i: int| 0 <= i < init.len() && init[i] == q;
            assert(uris[i] == q);
        }
        if uris.contains(q) {
            let i = choose|i: int| 0 <= i < uris.len() && uris[i] == q;
            if i < init.len() {
                assert(init[i] == q);
            }
        }
        assert(uris[uris.len() - 1] == uris.last());
    }
}

/// The host is asked for every credential that is needed, each under its own name, and for no
/// other. Without a need it is not asked, and without a host the call is refused.
pub proof fn host_is_asked_for_each_credential(uris: Seq<Seq<char>>, q: Seq<char>)
    ensures
        uris.len() == 0 ==> asked(uris, true) == Ok::<Option<JsonView>, BackendErrorView>(None)
            && asked(uris, false) == Ok::<Option<JsonView>, BackendErrorView>(None),
        uris.len() > 0 ==> asked(uris, false) == Err::<Option<JsonView>, BackendErrorView>(
            BackendErrorView::InvalidSpec { message: "host handle unavailable"@ },
        ),
        uris.len() > 0 ==> asked(uris, true) is Ok && asked(uris, true)->Ok_0 is Some && asked(
            uris,
            true,
        )->Ok_0->Some_0 is Object && asked(uris, true)->Ok_0->Some_0.get(q) == (if uris.contains(
            q,
        ) {
            Some(JsonView::String(q))
        } else {
            None
        }),
{
    text_stands_under_itself(uris, q);
}

/// What is found among the texts of an object.
proof fn text_member_is_found(es: Seq<(Seq<char>, JsonView)>, q: Seq<char>)
    requires
        ascending(es),
    ensures
        lookup(text_members(es), q) == (match lookup(es, q) {
            Some(JsonView::String(s)) => Some(s),
            _ => None,
        }),
    decreases es.len(),
{
    if es.len() > 0 {
        let init = es.drop_last();
        let last = es.last();
        assert forall|i: int, j: int| 0 <= i < j < init.len() implies before(
            #[trigger] init[i].0,
            #[trigger] init[j].0,
        ) by {
            assert(init[i] == es[i] && init[j] == es[j]);
        }
        text_member_is_found(init, q);
        lookup_behind(init, last.0, last.1, q);
        assert(init.push((last.0, last.1)) =~= es);
        if let JsonView::String(s) = last.1 {
            lookup_behind(text_members(init), last.0, s, q);
        }
        if q == last.0 {
            lookup_finds_entry(init, q);
            if let Some(v) = lookup(init, q) {
                let j = choose|j: int| 0 <= j < init.len() && #[trigger] init[j] == (q, v);
                before_is_total(q, q);
                assert(init[j] == es[j]);
                assert(before(es[j].0, es[es.len() - 1].0));
            }
        }
    }
}

/// The host gives a credential by a text under its name. Anything else that it answers with gives
/// none.
pub proof fn credential_is_given_as_text(snapshot: JsonView, q: Seq<char>)
    requires
        snapshot is Object ==> ascending(snapshot->Object_0),
    ensures
        lookup(given(snapshot), q) == (match snapshot.get(q) {
            Some(JsonView::String(s)) => Some(s),
            _ => None,
        }),
{
    if let JsonView::Object(es) = snapshot {
        text_member_is_found(es, q);
    }
}

/// Every credential whose token stands in a header of the source, or in the secret of a scheme of
/// the operation, is asked for. Each is asked for once, in ascending order.
pub proof fn every_configured_credential_is_asked_for(
    profile: ProfileView,
    src: SourceView,
    args: JsonView,
    tokens_of: spec_fn(Seq<char>) -> Seq<Seq<char>>,
    q: Seq<char>,
)
    requires
        call_prepared(profile, src, args) is Ok,
        (exists|i: int|
            0 <= i < src.headers.len() && tokens_of((#[trigger] src.headers[i]).1).contains(q)) || (
        exists|j: int|
            0 <= j < profile.plan.auth_schemes.len() && lookup(
                src.auth,
                #[trigger] profile.plan.auth_schemes[j],
            ) is Some && tokens_of(
                lookup(src.auth, profile.plan.auth_schemes[j])->Some_0,
            ).contains(q)),
    ensures
        ({
            let uris = call_prepared(profile, src, args)->Ok_0.credentials_asked(src, tokens_of);
            &&& uris.contains(q)
            &&& forall|a: int, b: int|
                0 <= a < b < uris.len() ==> before(#[trigger] uris[a], #[trigger] uris[b])
        }),
{
    let call = call_prepared(profile, src, args)->Ok_0;
    let headers = mapped(src.headers, tokens_of);
    let auth = mapped(call.auth, tokens_of);
    only_carried_credentials_are_asked_for(headers, auth, q);
    names_in_order(tokens_in(headers) + tokens_in(auth));
    if exists|i: int|
        0 <= i < src.headers.len() && tokens_of((#[trigger] src.headers[i]).1).contains(q) {
        let i = choose|i: int|
            0 <= i < src.headers.len() && tokens_of((#[trigger] src.headers[i]).1).contains(q);
        assert(headers[i].1.contains(q));
    } else {
        let names = profile.plan.auth_schemes;
        let j = choose|j: int|
            0 <= j < names.len() && lookup(src.auth, #[trigger] names[j]) is Some && tokens_of(
                lookup(src.auth, names[j])->Some_0,
            ).contains(q);
        only_needed_secrets_are_taken(names, src.auth, names.len() as int, names[j]);
        assert(names.take(names.len() as int) =~= names);
        assert(names.contains(names[j]));
        let v = lookup(src.auth, names[j])->Some_0;
        lookup_finds_entry(call.auth, names[j]);
        let k = choose|k: int| 0 <= k < call.auth.len() && #[trigger] call.auth[k] == (names[j], v);
        assert(auth[k].1.contains(q));
    }
}

// What is sent.

/// A header that the source fixes goes out as configured, where no parameter of the call and no
/// scheme of the operation writes it and it carries no token.
pub proof fn fixed_header_is_sent(
    profile: ProfileView,
    src: SourceView,
    args: JsonView,
    tokens_of: spec_fn(Seq<char>) -> Seq<Seq<char>>,
    replaced: spec_fn(Seq<char>) -> Seq<char>,
    i: int,
)
    requires
        call_prepared(profile, src, args) is Ok,
        ascending(src.headers),
        0 <= i < src.headers.len(),
        tokens_of(src.headers[i].1).len() == 0,
        ({
            let params = call_prepared(profile, src, args)->Ok_0.prepared.header_params;
            forall|j: int|
                0 <= j < params.len() ==> (#[trigger] params[j]).0 != src.headers[i].0
        }),
        forall|j: int|
            0 <= j < profile.plan.auth_schemes.len() && lookup(
                src.security_schemes,
                #[trigger] profile.plan.auth_schemes[j],
            ) is Some ==> !writes_header(
                lookup(src.security_schemes, profile.plan.auth_schemes[j])->Some_0,
                src.headers[i].0,
            ),
    ensures
        lookup(
            call_prepared(profile, src, args)->Ok_0.with_credentials(
                src,
                tokens_of,
                replaced,
            ).credited(profile, src).headers,
            src.headers[i].0,
        ) == Some(src.headers[i].1),
{
    let call = call_prepared(profile, src, args)->Ok_0;
    let done = call.with_credentials(src, tokens_of, replaced);
    let q = src.headers[i].0;
    let params = call.prepared.header_params;
    let tokens = mapped(src.headers, tokens_of);
    entry_holds_its_value(src.headers, i);
    merged_header_is_found(src.headers, params, params.len() as int, q);
    assert forall|j: int| 0 <= j < tokens.len() && (#[trigger] tokens[j]).0 == q implies tokens[j].1.len()
        == 0 by {
        assert(src.headers[j].0 == q);
        entry_holds_its_value(src.headers, j);
    }
    unconfigured_header_is_never_resolved(
        call.headers,
        tokens,
        mapped(src.headers, replaced),
        q,
    );
    secret_leaves_other_headers(
        Credited { headers: done.headers, query: done.prepared.query },
        profile.plan.auth_schemes,
        src.security_schemes,
        done.auth,
        profile.plan.auth_schemes.len() as int,
        q,
    );
}

/// The secret of each scheme of an operation is the operator's, with its tokens replaced; a scheme
/// without one has none. No other secret of the operator comes into a call.
pub proof fn secret_travels_resolved(
    profile: ProfileView,
    src: SourceView,
    args: JsonView,
    tokens_of: spec_fn(Seq<char>) -> Seq<Seq<char>>,
    replaced: spec_fn(Seq<char>) -> Seq<char>,
    q: Seq<char>,
)
    requires
        call_prepared(profile, src, args) is Ok,
    ensures
        lookup(
            call_prepared(profile, src, args)->Ok_0.with_credentials(
                src,
                tokens_of,
                replaced,
            ).auth,
            q,
        ) == (match lookup(src.auth, q) {
            Some(v) => if profile.plan.auth_schemes.contains(q) {
                Some(replaced(v))
            } else {
                None
            },
            None => None,
        }),
{
    let call = call_prepared(profile, src, args)->Ok_0;
    let names = profile.plan.auth_schemes;
    only_needed_secrets_are_taken(names, src.auth, names.len() as int, q);
    assert(names.take(names.len() as int) =~= names);
    lookup_in_mapped(call.auth, replaced, q);
    resolved_secret_is_used(call.auth, mapped(call.auth, replaced), q);
}

/// Whether the scheme called `name` sends its secret in the query.
pub open spec fn sends_in_query(
    declared: Seq<(Seq<char>, SecuritySchemeView)>,
    secrets: Seq<(Seq<char>, Seq<char>)>,
    name: Seq<char>,
) -> bool {
    &&& lookup(declared, name) is Some
    &&& lookup(declared, name)->Some_0 is ApiKeyQuery
    &&& lookup(secrets, name) is Some
}

/// The query goes out as it was, and behind it one pair for every scheme of the operation that
/// sends its secret in the query: the name that the scheme gives it and the secret. They stand in
/// the order of the schemes, and there is no other.
pub proof fn query_secrets_follow_the_query(
    start: Credited,
    names: Seq<Seq<char>>,
    declared: Seq<(Seq<char>, SecuritySchemeView)>,
    secrets: Seq<(Seq<char>, Seq<char>)>,
    n: int,
) -> (ix: Seq<int>)
    requires
        0 <= n <= names.len(),
    ensures
        rising(ix, n),
        ({
            let all = start.with_secrets(names, declared, secrets, n).query;
            &&& all.len() == start.query.len() + ix.len()
            &&& all.take(start.query.len() as int) == start.query
            &&& forall|k: int|
                0 <= k < ix.len() ==> sends_in_query(declared, secrets, names[#[trigger] ix[k]])
                    && all[start.query.len() + k] == (
                    lookup(declared, names[ix[k]])->Some_0->ApiKeyQuery_name,
                    lookup(secrets, names[ix[k]])->Some_0,
                )
        }),
        forall|i: int|
            0 <= i < n && sends_in_query(declared, secrets, #[trigger] names[i]) ==> ix.contains(i),
    decreases n,
{
    let all = start.with_secrets(names, declared, secrets, n).query;
    if n == 0 {
        assert(all.take(start.query.len() as int) =~= start.query);
        Seq::empty()
    } else {
        let done = query_secrets_follow_the_query(start, names, declared, secrets, n - 1);
        let old = start.with_secrets(names, declared, secrets, n - 1).query;
        let ix = if sends_in_query(declared, secrets, names[n - 1]) {
            done.push(n - 1)
        } else {
            done
        };
        assert(all.take(start.query.len() as int) =~= old.take(start.query.len() as int));
        assert forall|k: int| 0 <= k < ix.len() implies sends_in_query(
            declared,
            secrets,
            names[#[trigger] ix[k]],
        ) && all[start.query.len() + k] == (
            lookup(declared, names[ix[k]])->Some_0->ApiKeyQuery_name,
            lookup(secrets, names[ix[k]])->Some_0,
        ) by {
            if k < done.len() {
                assert(ix[k] == done[k]);
                assert(all[start.query.len() + k] == old[start.query.len() + k]);
            }
        }
        assert forall|i: int|
            0 <= i < n && sends_in_query(
                declared,
                secrets,
                #[trigger] names[i],
            ) implies ix.contains(i) by {
            if i < n - 1 {
                let k = choose|k: int| 0 <= k < done.len() && done[k] == i;
                assert(ix[k] == i);
            } else {
                assert(ix[ix.len() - 1] == i);
            }
        }
        ix
    }
}

/// A call is the request of its arguments; where they make none, it is refused for that reason.
pub proof fn call_is_the_request_of_its_arguments(
    profile: ProfileView,
    src: SourceView,
    args: JsonView,
)
    ensures
        match profile.plan.request(args) {
            Ok(prepared) => call_prepared(profile, src, args) is Ok && call_prepared(
                profile,
                src,
                args,
            )->Ok_0.prepared == prepared,
            Err(message) => call_prepared(profile, src, args) == Err::<
                PreparedCallView,
                BackendErrorView,
            >(BackendErrorView::InvalidSpec { message }),
        },
{
}

/// A call goes out to the URL of its base, path and query, with the headers that it has once its
/// secrets are in. A base URL that cannot be used has it refused for that reason. Whether it fits
/// is whether that URL does.
pub proof fn call_goes_out_as_prepared(
    call: PreparedCallView,
    profile: ProfileView,
    src: SourceView,
)
    ensures
        ({
            let sent = Credited { headers: call.headers, query: call.prepared.query }.with_secrets(
                profile.plan.auth_schemes,
                src.security_schemes,
                call.auth,
                profile.plan.auth_schemes.len() as int,
            );
            match request_url(profile.base_url, call.prepared.relative_path, sent.query) {
                Ok(url) => {
                    &&& call.outgoing(profile, src) is Ok
                    &&& call.outgoing(profile, src)->Ok_0.url == url
                    &&& call.outgoing(profile, src)->Ok_0.headers == sent.headers
                },
                Err(message) => {
                    &&& call.outgoing(profile, src) is Err
                    &&& call.outgoing(profile, src)->Err_0 == (BackendErrorView::InvalidSpec {
                        message,
                    })
                },
            }
        }),
        ({
            let sent = Credited { headers: call.headers, query: call.prepared.query }.with_secrets(
                profile.plan.auth_schemes,
                src.security_schemes,
                call.auth,
                profile.plan.auth_schemes.len() as int,
            );
            let path = call.prepared.relative_path;
            &&& call.fits(profile, src) <==> url_fits(profile.base_url, path, sent.query)
            &&& call.surely_fits(profile, src) <==> url_surely_fits(
                profile.base_url,
                path,
                sent.query,
            )
        }),
{
}

// The URL.

/// A form writes byte after byte. A letter, a digit or one of `*-._` stands for itself, a space is
/// a `+`, and any other byte a `%` and the two hexadecimal digits of its value.
pub proof fn form_bytes_are_encoded_one_by_one(bytes: Seq<u8>, b: u8)
    ensures
        form_encoded(Seq::empty()).len() == 0,
        ({
            let done = form_encoded(bytes);
            let all = form_encoded(bytes.push(b));
            let c = b as char;
            if ('a' <= c && c <= 'z') || ('A' <= c && c <= 'Z') || ('0' <= c && c <= '9') || c
                == '*' || c == '-' || c == '.' || c == '_' {
                all == done.push(c)
            } else if c == ' ' {
                all == done.push('+')
            } else {
                &&& all.len() == done.len() + 3
                &&& all.take(done.len() as int) == done
                &&& all[done.len() as int] == '%'
                &&& hex_digit_value(all[done.len() + 1int]) * 16 + hex_digit_value(
                    all[done.len() + 2int],
                ) == b
                &&& 0 <= hex_digit_value(all[done.len() + 1int])
                &&& 0 <= hex_digit_value(all[done.len() + 2int])
            }
        }),
{
    let done = form_encoded(bytes);
    let all = form_encoded(bytes.push(b));
    assert(bytes.push(b).drop_last() =~= bytes);
    assert(bytes.push(b).last() == b);
    assert(all.take(done.len() as int) =~= done);
}

/// A query is extended pair by pair: each is its name, a `=` and its value, and follows a `?`
/// where there was no query and a `&` where there was one that was not empty.
pub proof fn query_is_extended_pair_by_pair(
    query: Seq<char>,
    pairs: Seq<(Seq<char>, Seq<char>)>,
    n: int,
)
    requires
        0 <= n < pairs.len(),
    ensures
        query_with(query, pairs, 0) == query,
        ({
            let done = query_with(query, pairs, n);
            let pair = form_encoded(encode_utf8(pairs[n].0)) + seq!['='] + form_encoded(
                encode_utf8(pairs[n].1),
            );
            query_with(query, pairs, n + 1) == (if done.len() == 0 {
                seq!['?'] + pair
            } else if done.len() == 1 {
                done + pair
            } else {
                done + seq!['&'] + pair
            })
        }),
{
    let done = query_with(query, pairs, n);
    let pair = form_encoded(encode_utf8(pairs[n].0)) + seq!['='] + form_encoded(
        encode_utf8(pairs[n].1),
    );
    let all = query_with(query, pairs, n + 1);
    if done.len() == 0 {
        assert(all =~= seq!['?'] + pair);
    } else if done.len() == 1 {
        assert(all =~= done + pair);
    } else {
        assert(all =~= done + seq!['&'] + pair);
    }
}

/// The path of an operation follows that of the base URL, whose slashes at the end are left out.
pub proof fn path_follows_the_base(base: Seq<char>, relative: Seq<char>) -> (n: int)
    ensures
        0 <= n <= base.len(),
        forall|i: int| n <= i < base.len() ==> #[trigger] base[i] == '/',
        n > 0 ==> base[n - 1] != '/',
        path_below(base, relative) == base.take(n) + relative,
{
    trailing_run_is_taken_off(base, '/')
}

/// The URL of a request is the base URL with the path and the query of the operation in their
/// places; what stands before the path and behind the query stays. A base URL that cannot be read
/// has the request refused.
pub proof fn url_is_the_base_with_path_and_query(
    base_url: Seq<char>,
    relative: Seq<char>,
    query: Seq<(Seq<char>, Seq<char>)>,
)
    ensures
        match url_read(base_url) {
            Ok(base) => {
                &&& request_url(base_url, relative, query) is Ok
                &&& request_url(base_url, relative, query)->Ok_0 == base.origin + path_written(
                    base.origin,
                    base.path,
                    path_below(base.path, relative),
                ) + query_with(base.query, query, query.len() as int) + base.fragment
            },
            Err(e) => request_url(base_url, relative, query) == Err::<Seq<char>, Seq<char>>(
                "invalid base_url '"@ + base_url + "': "@ + e,
            ),
        },
{
}

/// A query is as long as its size says.
pub proof fn query_has_its_size(query: Seq<char>, pairs: Seq<(Seq<char>, Seq<char>)>, n: int)
    requires
        0 <= n <= pairs.len(),
    ensures
        query_with(query, pairs, n).len() == query_size(query.len(), pairs, n),
    decreases n,
{
    if n > 0 {
        query_has_its_size(query, pairs, n - 1);
        pair_has_its_size(query_with(query, pairs, n - 1), pairs[n - 1].0, pairs[n - 1].1);
    }
}

/// A URL fits where its path, the old one and the new, ends within 32 bits, and where a fragment
/// that follows begins there, behind the old query and behind the new. A base URL that cannot be
/// read takes no room.
pub proof fn url_fits_within_its_offsets(
    base_url: Seq<char>,
    relative: Seq<char>,
    query: Seq<(Seq<char>, Seq<char>)>,
)
    ensures
        match url_read(base_url) {
            Ok(base) => {
                let path = path_written(
                    base.origin,
                    base.path,
                    path_below(base.path, relative),
                );
                let full = query_with(base.query, query, query.len() as int);
                url_fits(base_url, relative, query) <==> {
                    &&& base.origin.len() + base.path.len() <= u32::MAX
                    &&& base.origin.len() + path.len() <= u32::MAX
                    &&& base.fragment.len() > 0 ==> base.origin.len() + path.len()
                        + base.query.len() <= u32::MAX
                    &&& base.fragment.len() > 0 ==> base.origin.len() + path.len() + full.len()
                        <= u32::MAX
                }
            },
            Err(_) => url_fits(base_url, relative, query),
        },
{
    if let Ok(base) = url_read(base_url) {
        query_has_its_size(base.query, query, query.len() as int);
    }
}

/// No byte takes more than three characters in a path.
proof fn path_bytes_take_three_at_most(bytes: Seq<u8>)
    ensures
        Coding::Path.size(bytes) <= 3 * bytes.len(),
    decreases bytes.len(),
{
    if bytes.len() > 0 {
        path_bytes_take_three_at_most(bytes.drop_last());
    }
}

/// A URL is sure to fit where there is room for its path with every byte escaped and, where a
/// fragment follows, for what stands before that.
pub proof fn url_with_room_is_sure_to_fit(
    base_url: Seq<char>,
    relative: Seq<char>,
    query: Seq<(Seq<char>, Seq<char>)>,
)
    requires
        url_read(base_url) is Ok ==> ({
            let base = url_read(base_url)->Ok_0;
            let path = path_below(base.path, relative);
            let widest = base.origin.len() + 3 * encode_utf8(path).len() + 2;
            &&& base.origin.len() + base.path.len() <= u32::MAX
            &&& widest <= u32::MAX
            &&& base.fragment.len() > 0 ==> widest + base.query.len() <= u32::MAX
            &&& base.fragment.len() > 0 ==> base.origin.len() + path_written(
                base.origin,
                base.path,
                path,
            ).len() + query_with(base.query, query, query.len() as int).len() <= u32::MAX
        }),
    ensures
        url_surely_fits(base_url, relative, query),
{
    if let Ok(base) = url_read(base_url) {
        path_bytes_take_three_at_most(encode_utf8(path_below(base.path, relative)));
        query_has_its_size(base.query, query, query.len() as int);
    }
}

}
