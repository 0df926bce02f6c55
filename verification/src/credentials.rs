//! Headers and credentials of a call.
//!
//! An operator writes a credential as a token in the value of a header or of a secret. Which
//! tokens a value carries, and what a value reads once they are replaced, is told from
//! outside. Which values are looked at is what `call::values_scanned` hands out; this module
//! decides which credentials are asked for, where the replaced values go, and how each secret
//! is sent.
use crate::document::{schemes, SecurityScheme, SecuritySchemeView};
use crate::error::{invalid, BackendError, BackendErrorView};
use crate::json::{members, no_members, object_of, put, tree_of, Json, JsonView};
use crate::plan::{in_order, sorted_names};
use crate::text::{before, pair_texts, texts};
use crate::text_map::{
    ascending, lookup, lookup_in_mapped, mapped, text_entries, with_entry, TextMap,
};
use vstd::prelude::*;
use vstd::utf8::encode_utf8;

verus! {

/// The digit for `n` in the standard base64 alphabet.
pub open spec fn base64_digit(n: int) -> char {
    if n < 26 {
        (65 + n) as char
    } else if n < 52 {
        (71 + n) as char
    } else if n < 62 {
        (n - 4) as char
    } else if n == 62 {
        '+'
    } else {
        '/'
    }
}

/// The bytes in base64: four digits for each three bytes, and padding for what is left.
pub open spec fn base64_text(bytes: Seq<u8>) -> Seq<char>
    decreases bytes.len(),
{
    if bytes.len() == 0 {
        Seq::empty()
    } else {
        let a = bytes[0] as int;
        let b = if bytes.len() > 1 {
            bytes[1] as int
        } else {
            0
        };
        let c = if bytes.len() > 2 {
            bytes[2] as int
        } else {
            0
        };
        seq![
            base64_digit(a / 4),
            base64_digit(a % 4 * 16 + b / 16),
            if bytes.len() > 1 {
                base64_digit(b % 16 * 4 + c / 64)
            } else {
                '='
            },
            if bytes.len() > 2 {
                base64_digit(c % 64)
            } else {
                '='
            },
        ] + (if bytes.len() > 3 {
            base64_text(bytes.skip(3))
        } else {
            Seq::empty()
        })
    }
}

/// `base64::engine::general_purpose::STANDARD.encode`: the bytes in base64, in the standard
/// alphabet of RFC 4648 and with padding. No slice is so long that the length of its encoding overflows.
#[verifier::external_body]
fn encode_base64(bytes: &[u8]) -> (r: String)
    ensures
        r@ == base64_text(bytes@),
{
    base64::Engine::encode(&base64::engine::general_purpose::STANDARD, bytes)
}

/// What HTTP basic authentication sends for `value`, which is `user:pass`.
pub fn basic_b64(value: &str) -> (r: String)
    ensures
        r@ == base64_text(encode_utf8(value@)),
{
    encode_base64(value.as_bytes())
}

/// The value of `Authorization` for HTTP basic authentication with an encoded credential.
pub fn basic_value(encoded: &str) -> (r: String)
    ensures
        r@ == "Basic "@ + encoded@,
{
    let mut value = "Basic ".to_owned();
    value.append(encoded);
    value
}

/// The tokens in the values of a map, by key.
pub open spec fn token_entries(m: TextMap<Vec<String>>) -> Seq<(Seq<char>, Seq<Seq<char>>)> {
    mapped(m.entries(), |v: Vec<String>| texts(v@))
}

/// The keys whose values carry a token.
pub open spec fn names_bearing(es: Seq<(Seq<char>, Seq<Seq<char>>)>) -> Seq<Seq<char>>
    decreases es.len(),
{
    if es.len() == 0 {
        Seq::empty()
    } else if es.last().1.len() == 0 {
        names_bearing(es.drop_last())
    } else {
        names_bearing(es.drop_last()).push(es.last().0)
    }
}

/// All the tokens, one value after the other.
pub open spec fn tokens_in(es: Seq<(Seq<char>, Seq<Seq<char>>)>) -> Seq<Seq<char>>
    decreases es.len(),
{
    if es.len() == 0 {
        Seq::empty()
    } else {
        tokens_in(es.drop_last()) + es.last().1
    }
}

/// The credentials that are asked for, in order and each once.
pub open spec fn uris_needed(
    headers: Seq<(Seq<char>, Seq<Seq<char>>)>,
    auth: Seq<(Seq<char>, Seq<Seq<char>>)>,
) -> Seq<Seq<char>> {
    in_order(tokens_in(headers) + tokens_in(auth))
}

/// The document in which credentials are asked for: each under its own name.
pub open spec fn snapshot_of(uris: Seq<Seq<char>>) -> JsonView {
    JsonView::Object(object_of(uris.map_values(|u: Seq<char>| (u, JsonView::String(u)))))
}

/// What the host is asked: nothing where no value carries a token.
pub open spec fn asked(uris: Seq<Seq<char>>, host_available: bool) -> Result<
    Option<JsonView>,
    BackendErrorView,
> {
    if uris.len() == 0 {
        Ok(None)
    } else if host_available {
        Ok(Some(snapshot_of(uris)))
    } else {
        Err(invalid("host handle unavailable"@))
    }
}

/// The texts among the members of an object.
pub open spec fn text_members(es: Seq<(Seq<char>, JsonView)>) -> Seq<(Seq<char>, Seq<char>)>
    decreases es.len(),
{
    if es.len() == 0 {
        Seq::empty()
    } else {
        match es.last().1.text() {
            Some(s) => text_members(es.drop_last()).push((es.last().0, s)),
            None => text_members(es.drop_last()),
        }
    }
}

/// The credentials that the host gave.
pub open spec fn given(snapshot: JsonView) -> Seq<(Seq<char>, Seq<char>)> {
    match snapshot.members() {
        Some(es) => text_members(es),
        None => Seq::empty(),
    }
}

/// The map with the values of `replaced` under the first `n` of `names`.
pub open spec fn with_replaced(
    es: Seq<(Seq<char>, Seq<char>)>,
    names: Seq<Seq<char>>,
    replaced: Seq<(Seq<char>, Seq<char>)>,
    n: int,
) -> Seq<(Seq<char>, Seq<char>)>
    decreases n,
{
    if n <= 0 {
        es
    } else {
        let done = with_replaced(es, names, replaced, n - 1);
        match lookup(replaced, names[n - 1]) {
            Some(v) => with_entry(done, names[n - 1], v),
            None => done,
        }
    }
}

/// The headers once their credentials are in place. Only the names whose configured value
/// carries a token are written.
pub open spec fn headers_resolved(
    headers: Seq<(Seq<char>, Seq<char>)>,
    tokens: Seq<(Seq<char>, Seq<Seq<char>>)>,
    replaced: Seq<(Seq<char>, Seq<char>)>,
) -> Seq<(Seq<char>, Seq<char>)> {
    with_replaced(headers, names_bearing(tokens), replaced, names_bearing(tokens).len() as int)
}

/// The secrets once their credentials are in place.
pub open spec fn auth_resolved(
    auth: Seq<(Seq<char>, Seq<char>)>,
    replaced: Seq<(Seq<char>, Seq<char>)>,
) -> Seq<(Seq<char>, Seq<char>)> {
    Seq::new(
        auth.len(),
        |i: int|
            (
                auth[i].0,
                match lookup(replaced, auth[i].0) {
                    Some(v) => v,
                    None => auth[i].1,
                },
            ),
    )
}

/// The fixed headers of a source with the first `n` header parameters of a call.
pub open spec fn headers_merged(
    fixed: Seq<(Seq<char>, Seq<char>)>,
    params: Seq<(Seq<char>, Seq<char>)>,
    n: int,
) -> Seq<(Seq<char>, Seq<char>)>
    decreases n,
{
    if n <= 0 {
        fixed
    } else {
        with_entry(headers_merged(fixed, params, n - 1), params[n - 1].0, params[n - 1].1)
    }
}

/// The secrets that the operator gave for the first `n` of the schemes `names`.
pub open spec fn secrets_for(
    names: Seq<Seq<char>>,
    auth: Seq<(Seq<char>, Seq<char>)>,
    n: int,
) -> Seq<(Seq<char>, Seq<char>)>
    decreases n,
{
    if n <= 0 {
        Seq::empty()
    } else {
        let done = secrets_for(names, auth, n - 1);
        match lookup(auth, names[n - 1]) {
            Some(v) => with_entry(done, names[n - 1], v),
            None => done,
        }
    }
}

/// Headers and query of a request.
pub struct Credited {
    pub headers: Seq<(Seq<char>, Seq<char>)>,
    pub query: Seq<(Seq<char>, Seq<char>)>,
}

impl Credited {
    /// With a secret sent as the scheme says.
    pub open spec fn with_secret(self, scheme: SecuritySchemeView, value: Seq<char>) -> Credited {
        match scheme {
            SecuritySchemeView::ApiKeyHeader { name } => Credited {
                headers: with_entry(self.headers, name, value),
                query: self.query,
            },
            SecuritySchemeView::ApiKeyQuery { name } => Credited {
                headers: self.headers,
                query: self.query.push((name, value)),
            },
            SecuritySchemeView::Bearer => Credited {
                headers: with_entry(self.headers, "Authorization"@, "Bearer "@ + value),
                query: self.query,
            },
            SecuritySchemeView::Basic => Credited {
                headers: with_entry(
                    self.headers,
                    "Authorization"@,
                    "Basic "@ + base64_text(encode_utf8(value)),
                ),
                query: self.query,
            },
            SecuritySchemeView::Unsupported => self,
        }
    }

    /// With the secrets of the first `n` of the schemes `names`. One that the document does
    /// not declare, or for which there is no secret, is passed over.
    pub open spec fn with_secrets(
        self,
        names: Seq<Seq<char>>,
        declared: Seq<(Seq<char>, SecuritySchemeView)>,
        secrets: Seq<(Seq<char>, Seq<char>)>,
        n: int,
    ) -> Credited
        decreases n,
    {
        if n <= 0 {
            self
        } else {
            let done = self.with_secrets(names, declared, secrets, n - 1);
            match (lookup(declared, names[n - 1]), lookup(secrets, names[n - 1])) {
                (Some(scheme), Some(value)) => done.with_secret(scheme, value),
                _ => done,
            }
        }
    }
}

/// The keys whose values carry a token.
pub fn cred_header_names(tokens: &TextMap<Vec<String>>) -> (r: Vec<String>)
    ensures
        texts(r@) == names_bearing(token_entries(*tokens)),
{
    let mut r: Vec<String> = Vec::new();
    let ghost es = token_entries(*tokens);
    let n = tokens.len();
    assert(texts(r@) =~= names_bearing(es.take(0)));
    for i in 0..n
        invariant
            n == tokens.entries().len(),
            es == token_entries(*tokens),
            texts(r@) == names_bearing(es.take(i as int)),
    {
        assert(es.take(i + 1).drop_last() =~= es.take(i as int));
        assert(es[i as int].1.len() == tokens.entries()[i as int].1@.len());
        if tokens.value_at(i).len() > 0 {
            let ghost done = r@;
            let name = tokens.key_at(i).clone();
            r.push(name);
            assert(texts(r@) =~= texts(done).push(name@));
        }
    }
    assert(es.take(es.len() as int) =~= es);
    r
}

/// Adds the tokens of every value to `list`.
fn collect_tokens(list: &mut Vec<String>, tokens: &TextMap<Vec<String>>)
    ensures
        texts(final(list)@) == texts(old(list)@) + tokens_in(token_entries(*tokens)),
{
    let ghost start = texts(list@);
    let ghost es = token_entries(*tokens);
    let n = tokens.len();
    assert(start + tokens_in(es.take(0)) =~= start);
    for i in 0..n
        invariant
            n == tokens.entries().len(),
            es == token_entries(*tokens),
            texts(list@) == start + tokens_in(es.take(i as int)),
    {
        assert(es.take(i + 1).drop_last() =~= es.take(i as int));
        let values = tokens.value_at(i);
        let ghost done = texts(list@);
        assert(done + texts(values@).take(0) =~= done);
        for k in 0..values.len()
            invariant
                texts(list@) == done + texts(values@).take(k as int),
        {
            let ghost list_before = list@;
            let uri = values[k].clone();
            list.push(uri);
            assert(texts(list@) =~= texts(list_before).push(uri@));
            assert(texts(list@) =~= done + texts(values@).take(k + 1));
        }
        assert(texts(values@).take(values@.len() as int) =~= texts(values@));
        assert(es[i as int].1 == texts(values@));
        assert(texts(list@) =~= start + tokens_in(es.take(i + 1)));
    }
    assert(es.take(es.len() as int) =~= es);
}

/// The credentials that are asked for: those of the tokens in configured headers and in the
/// secrets, in order and each once.
pub fn cred_uris(headers: &TextMap<Vec<String>>, auth: &TextMap<Vec<String>>) -> (r: Vec<String>)
    ensures
        texts(r@) == uris_needed(token_entries(*headers), token_entries(*auth)),
{
    let mut all: Vec<String> = Vec::new();
    collect_tokens(&mut all, headers);
    collect_tokens(&mut all, auth);
    assert(texts(all@) =~= tokens_in(token_entries(*headers)) + tokens_in(token_entries(*auth)));
    sorted_names(&all)
}

/// What the host is asked for, or `None` where no value carries a token.
pub fn credential_request(
    headers: &TextMap<Vec<String>>,
    auth: &TextMap<Vec<String>>,
    host_available: bool,
) -> (r: Result<Option<Json>, BackendError>)
    ensures
        asked(uris_needed(token_entries(*headers), token_entries(*auth)), host_available) == (
        match r {
            Ok(snapshot) => Ok::<Option<JsonView>, BackendErrorView>(tree_of(snapshot)),
            Err(e) => Err(e@),
        }),
{
    let uris = cred_uris(headers, auth);
    if uris.len() == 0 {
        assert(texts(uris@).len() == 0);
        return Ok(None);
    }
    assert(texts(uris@).len() > 0);
    if !host_available {
        return Err(BackendError::InvalidSpec { message: "host handle unavailable".to_owned() });
    }
    let mut snapshot = no_members();
    let ghost pairs = texts(uris@).map_values(|u: Seq<char>| (u, JsonView::String(u)));
    assert(members(snapshot) =~= object_of(pairs.take(0)));
    for i in 0..uris.len()
        invariant
            pairs == texts(uris@).map_values(|u: Seq<char>| (u, JsonView::String(u))),
            members(snapshot) == object_of(pairs.take(i as int)),
    {
        assert(pairs.take(i + 1).drop_last() =~= pairs.take(i as int));
        assert(pairs[i as int] == (uris@[i as int]@, JsonView::String(uris@[i as int]@)));
        put(&mut snapshot, uris[i].as_str(), Json::from_text(uris[i].as_str()));
    }
    assert(pairs.take(pairs.len() as int) =~= pairs);
    Ok(Some(Json::from_members(snapshot)))
}

/// The credentials that the host gave. What is not a text is left out.
pub fn resolved_values(snapshot: &Json) -> (r: TextMap<String>)
    ensures
        text_entries(r) == given(snapshot@),
{
    let mut out: TextMap<String> = TextMap::new();
    assert(text_entries(out) =~= Seq::empty());
    let Some(m) = snapshot.as_object() else {
        return out;
    };
    let ghost es = members(*m);
    m.show_order();
    let n = m.len();
    assert(es.take(0) =~= Seq::empty());
    for i in 0..n
        invariant
            n == m.entries().len(),
            es == members(*m),
            ascending(m.entries()),
            text_entries(out) == text_members(es.take(i as int)),
            forall|j: int|
                0 <= j < out.entries().len() ==> exists|k: int|
                    0 <= k < i && #[trigger] out.entries()[j].0 == es[k].0,
    {
        let key = m.key_at(i);
        assert(es[i as int] == (key@, m.entries()[i as int].1@));
        assert(es.take(i + 1).drop_last() =~= es.take(i as int));
        if let Some(s) = m.value_at(i).as_str() {
            assert forall|j: int| 0 <= j < out.entries().len() implies before(
                #[trigger] out.entries()[j].0,
                key@,
            ) by {
                let k = choose|k: int| 0 <= k < i && out.entries()[j].0 == es[k].0;
                assert(es[k].0 == m.entries()[k].0);
            }
            let ghost done = text_entries(out);
            let value = s.to_owned();
            out.insert_last(key.clone(), value);
            assert(text_entries(out) =~= done.push((key@, value@)));
        }
    }
    assert(es.take(es.len() as int) =~= es);
    out
}

/// Puts the replaced values of configured headers in place. `tokens` tells which configured
/// values carry a token, and no other header is written: what a caller sent stays as it was
/// sent.
pub fn write_headers(
    headers: &mut TextMap<String>,
    tokens: &TextMap<Vec<String>>,
    replaced: &TextMap<String>,
)
    ensures
        text_entries(*final(headers)) == headers_resolved(
            text_entries(*old(headers)),
            token_entries(*tokens),
            text_entries(*replaced),
        ),
{
    let names = cred_header_names(tokens);
    let ghost start = text_entries(*headers);
    let ghost values = text_entries(*replaced);
    for i in 0..names.len()
        invariant
            values == text_entries(*replaced),
            text_entries(*headers) == with_replaced(start, texts(names@), values, i as int),
    {
        assert(texts(names@)[i as int] == names@[i as int]@);
        if let Some(v) = replaced.get_text(names[i].as_str()) {
            headers.insert_text(names[i].as_str(), v.clone());
        }
    }
}

/// Puts the replaced secrets in place.
pub fn write_auth(auth: &TextMap<String>, replaced: &TextMap<String>) -> (r: TextMap<String>)
    ensures
        text_entries(r) == auth_resolved(text_entries(*auth), text_entries(*replaced)),
{
    let mut out: TextMap<String> = TextMap::new();
    auth.show_order();
    let ghost es = text_entries(*auth);
    let ghost all = auth_resolved(es, text_entries(*replaced));
    let n = auth.len();
    assert(text_entries(out) =~= all.take(0));
    for i in 0..n
        invariant
            n == auth.entries().len(),
            ascending(auth.entries()),
            es == text_entries(*auth),
            all == auth_resolved(es, text_entries(*replaced)),
            text_entries(out) == all.take(i as int),
    {
        let key = auth.key_at(i);
        assert(text_entries(out).len() == i);
        assert forall|j: int| 0 <= j < out.entries().len() implies before(
            #[trigger] out.entries()[j].0,
            key@,
        ) by {
            assert(text_entries(out)[j].0 == es[j].0);
            assert(es[j].0 == auth.entries()[j].0);
        }
        let value = match replaced.get_text(key.as_str()) {
            Some(v) => v.clone(),
            None => auth.value_at(i).clone(),
        };
        assert(all[i as int] == (key@, value@));
        let ghost done = text_entries(out);
        out.insert_last(key.clone(), value);
        assert(text_entries(out) =~= done.push((key@, value@)));
        assert(all.take(i as int).push(all[i as int]) =~= all.take(i + 1));
    }
    assert(all.take(all.len() as int) =~= all);
    out
}

/// The fixed headers of a source with the header parameters of a call over them.
pub fn merge_headers(fixed: &TextMap<String>, params: &Vec<(String, String)>) -> (r: TextMap<
    String,
>)
    ensures
        text_entries(r) == headers_merged(
            text_entries(*fixed),
            pair_texts(params@),
            params@.len() as int,
        ),
{
    let mut out = fixed.copy_texts();
    for i in 0..params.len()
        invariant
            text_entries(out) == headers_merged(
                text_entries(*fixed),
                pair_texts(params@),
                i as int,
            ),
    {
        assert(pair_texts(params@)[i as int] == (params@[i as int].0@, params@[i as int].1@));
        out.insert_text(params[i].0.as_str(), params[i].1.clone());
    }
    out
}

/// The secrets that the operator gave for the schemes `names`.
pub fn auth_values(names: &Vec<String>, auth: &TextMap<String>) -> (r: TextMap<String>)
    ensures
        text_entries(r) == secrets_for(texts(names@), text_entries(*auth), names@.len() as int),
{
    let mut out: TextMap<String> = TextMap::new();
    assert(text_entries(out) =~= Seq::empty());
    for i in 0..names.len()
        invariant
            text_entries(out) == secrets_for(texts(names@), text_entries(*auth), i as int),
    {
        assert(texts(names@)[i as int] == names@[i as int]@);
        if let Some(v) = auth.get_text(names[i].as_str()) {
            out.insert_text(names[i].as_str(), v.clone());
        }
    }
    out
}

/// Sends each secret as its scheme says: as a header, in the query, as a bearer token, or as
/// basic authentication.
pub fn inject_auth(
    headers: &mut TextMap<String>,
    query: &mut Vec<(String, String)>,
    names: &Vec<String>,
    declared: &TextMap<SecurityScheme>,
    secrets: &TextMap<String>,
)
    ensures
        ({
            let r = Credited {
                headers: text_entries(*old(headers)),
                query: pair_texts(old(query)@),
            }.with_secrets(
                texts(names@),
                schemes(*declared),
                text_entries(*secrets),
                names@.len() as int,
            );
            text_entries(*final(headers)) == r.headers && pair_texts(final(query)@) == r.query
        }),
{
    let ghost start = Credited { headers: text_entries(*headers), query: pair_texts(query@) };
    for i in 0..names.len()
        invariant
            ({
                let r = start.with_secrets(
                    texts(names@),
                    schemes(*declared),
                    text_entries(*secrets),
                    i as int,
                );
                text_entries(*headers) == r.headers && pair_texts(query@) == r.query
            }),
    {
        let name = names[i].as_str();
        assert(texts(names@)[i as int] == name@);
        proof {
            lookup_in_mapped(declared.entries(), |s: SecurityScheme| s@, name@);
        }
        if let (Some(scheme), Some(value)) = (declared.get(name), secrets.get_text(name)) {
            match scheme {
                SecurityScheme::ApiKeyHeader { name: header } => {
                    headers.insert_text(header.as_str(), value.clone());
                },
                SecurityScheme::ApiKeyQuery { name: parameter } => {
                    let ghost done = query@;
                    let pair = (parameter.clone(), value.clone());
                    query.push(pair);
                    assert(pair_texts(query@) =~= pair_texts(done).push((pair.0@, pair.1@)));
                },
                SecurityScheme::Bearer => {
                    let mut credential = "Bearer ".to_owned();
                    credential.append(value.as_str());
                    headers.insert_text("Authorization", credential);
                },
                SecurityScheme::Basic => {
                    let credential = basic_value(basic_b64(value.as_str()).as_str());
                    headers.insert_text("Authorization", credential);
                },
                SecurityScheme::Unsupported => {},
            }
        }
    }
}

}
