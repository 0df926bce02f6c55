//! An OpenAPI 3.0/3.1 document: its operations, security schemes and schemas.
//!
//! References inside the document are inlined to a bounded depth; references to other
//! documents are left in place.
use crate::codec::{json_read, yaml_read};
use crate::config::SpecSource;
use crate::json::{
    members, no_members, pointed, put, put_last, to_tree, tree_of, trees, Json, JsonView,
};
use crate::operation::{operation_views, OperationMeta, OperationMetaView};
use crate::plan::{
    list_texts, location_named, param_views, texts_in, BodyPlan, BodyPlanView, OperationPlan,
    OperationPlanView, ParamLocation, ParamPlan, ParamPlanView,
};
use crate::text::{
    after_prefix, before, begins_with, count, join3, lower, lower_case, occurrences,
    pair_texts, same, text_of, texts, upper, upper_case,
};
use crate::text_map::{ascending, keys_of, lookup_in_mapped, mapped, with_entry, TextMap};
use vstd::prelude::*;

verus! {

/// How many references are followed before one is left in place.
pub const MAX_REF_DEPTH: usize = 12;

/// The HTTP methods that a path item can carry.
pub open spec fn methods() -> Seq<Seq<char>> {
    seq!["get"@, "put"@, "post"@, "delete"@, "patch"@, "head"@, "options"@]
}

/// The HTTP methods that a path item can carry.
fn method_list() -> (r: Vec<&'static str>)
    ensures
        r@.len() == methods().len(),
        forall|i: int| 0 <= i < r@.len() ==> (#[trigger] r@[i])@ == methods()[i],
{
    vec!["get", "put", "post", "delete", "patch", "head", "options"]
}

/// A parsed document.
#[derive(Debug)]
pub struct ParsedSpec {
    pub root: Json,
}

impl Clone for ParsedSpec {
    fn clone(&self) -> (r: Self)
        ensures
            r@ == self@,
    {
        ParsedSpec { root: self.root.clone() }
    }
}

impl View for ParsedSpec {
    type V = JsonView;

    open spec fn view(&self) -> JsonView {
        self.root@
    }
}

/// The document in a text: JSON, or else YAML.
pub open spec fn document_in(text: Seq<char>) -> Result<JsonView, Seq<char>> {
    match json_read(text) {
        Some(v) => Ok(v),
        None => yaml_read(text),
    }
}

/// `v` as the root of a document, which is an object.
pub open spec fn rooted(v: JsonView) -> Result<JsonView, Seq<char>> {
    if v.members() is Some {
        Ok(v)
    } else {
        Err("spec document root is not a JSON/YAML object"@)
    }
}

/// The document of a source, or why it cannot be had. `file` is what reading the file that
/// the source names gave: its text, or the wording of the error.
pub open spec fn loaded(source: SpecSource, file: Result<Seq<char>, Seq<char>>) -> Result<
    JsonView,
    Seq<char>,
> {
    match source {
        SpecSource::Inline { inline } => rooted(inline@),
        SpecSource::Uri(uri) => if "file://"@.is_prefix_of(uri@) {
            let path = uri@.skip("file://"@.len() as int);
            match file {
                Ok(text) => match document_in(text) {
                    Ok(v) => rooted(v),
                    Err(e) => Err("parsing spec '"@ + path + "': "@ + e),
                },
                Err(e) => Err("reading spec '"@ + path + "': "@ + e),
            }
        } else if "http://"@.is_prefix_of(uri@) || "https://"@.is_prefix_of(uri@) {
            Err(
                "remote spec sources are not yet supported (deferred to a later phase): '"@ + uri@
                    + "'"@,
            )
        } else {
            Err("unsupported spec source scheme: '"@ + uri@ + "'"@)
        },
    }
}

/// Reads a document as JSON and, where that fails, as YAML.
pub fn parse_doc(text: &str) -> (r: Result<Json, String>)
    ensures
        document_in(text@) == (match r {
            Ok(j) => Ok::<JsonView, Seq<char>>(j@),
            Err(e) => Err(e@),
        }),
{
    match Json::read(text) {
        Some(j) => Ok(j),
        None => Json::read_yaml(text),
    }
}

impl ParsedSpec {
    /// The document with the given root.
    pub fn from_root(root: Json) -> (r: Result<Self, String>)
        ensures
            rooted(root@) == (match r {
                Ok(p) => Ok::<JsonView, Seq<char>>(p@),
                Err(e) => Err(e@),
            }),
    {
        if root.as_object().is_none() {
            return Err("spec document root is not a JSON/YAML object".to_owned());
        }
        Ok(ParsedSpec { root })
    }

    /// Loads the document of a source. `file` is what reading the file that the source names
    /// gave: its text, or the wording of the error. Other sources leave it unread.
    pub fn load(source: &SpecSource, file: &Result<String, String>) -> (r: Result<Self, String>)
        ensures
            loaded(
                *source,
                match *file {
                    Ok(text) => Ok(text@),
                    Err(e) => Err(e@),
                },
            ) == (match r {
                Ok(p) => Ok::<JsonView, Seq<char>>(p@),
                Err(e) => Err(e@),
            }),
    {
        match source {
            SpecSource::Inline { inline } => ParsedSpec::from_root(inline.clone()),
            SpecSource::Uri(uri) => {
                if let Some(path) = after_prefix(uri.as_str(), "file://") {
                    let text = match file {
                        Ok(text) => text,
                        Err(e) => {
                            let mut message = join3("reading spec '", path.as_str(), "': ");
                            message.append(e.as_str());
                            return Err(message);
                        },
                    };
                    match parse_doc(text.as_str()) {
                        Ok(root) => ParsedSpec::from_root(root),
                        Err(e) => {
                            let mut message = join3("parsing spec '", path.as_str(), "': ");
                            message.append(e.as_str());
                            Err(message)
                        },
                    }
                } else if begins_with(uri.as_str(), "http://") || begins_with(
                    uri.as_str(),
                    "https://",
                ) {
                    Err(
                        join3(
                            "remote spec sources are not yet supported (deferred to a later phase): '",
                            uri.as_str(),
                            "'",
                        ),
                    )
                } else {
                    Err(join3("unsupported spec source scheme: '", uri.as_str(), "'"))
                }
            },
        }
    }
}

/// What a reference inside the document stands for.
pub open spec fn resolved(root: JsonView, reference: Seq<char>) -> Option<JsonView> {
    if "#"@.is_prefix_of(reference) {
        pointed(root, reference.skip("#"@.len() as int))
    } else {
        None
    }
}

/// `v`, or what its reference leads to after at most `hops` steps. A reference that leads
/// nowhere is left in place.
pub open spec fn followed(root: JsonView, v: JsonView, hops: nat) -> JsonView
    decreases hops,
{
    match v.text_at("$ref"@) {
        Some(reference) => if hops == 0 {
            v
        } else {
            match resolved(root, reference) {
                Some(target) => followed(root, target, (hops - 1) as nat),
                None => v,
            }
        },
        None => v,
    }
}

/// `v`, or what its reference leads to.
pub open spec fn derefed(root: JsonView, v: JsonView) -> JsonView {
    followed(root, v, MAX_REF_DEPTH as nat)
}

/// The schema with its references inlined and `nullable` turned into a type union.
pub open spec fn inlined(root: JsonView, schema: JsonView, depth: nat) -> JsonView
    decreases MAX_REF_DEPTH - depth, 1int, 0int,
{
    if depth >= MAX_REF_DEPTH {
        schema
    } else if schema.get("$ref"@) is Some {
        let target = derefed(root, schema);
        if target.get("$ref"@) is Some {
            target
        } else {
            inlined(root, target, depth + 1)
        }
    } else {
        match schema {
            JsonView::Object(es) => JsonView::Object(
                with_null(es, inlined_members(root, es, depth)),
            ),
            _ => schema,
        }
    }
}

/// The members of a schema, each inlined.
pub open spec fn inlined_members(
    root: JsonView,
    es: Seq<(Seq<char>, JsonView)>,
    depth: nat,
) -> Seq<(Seq<char>, JsonView)>
    decreases MAX_REF_DEPTH - depth, 0int, es.len(),
{
    if es.len() == 0 {
        Seq::empty()
    } else {
        let done = inlined_members(root, es.drop_last(), depth);
        match inlined_member(root, es.last().0, es.last().1, depth) {
            Some(v) => done.push((es.last().0, v)),
            None => done,
        }
    }
}

/// The member `key` of a schema, inlined where it holds schemas. `nullable` is left out: it
/// goes into the type.
pub open spec fn inlined_member(
    root: JsonView,
    key: Seq<char>,
    v: JsonView,
    depth: nat,
) -> Option<JsonView>
    decreases MAX_REF_DEPTH - depth, 0int, 0int,
{
    if depth >= MAX_REF_DEPTH {
        Some(v)
    } else if key == "properties"@ {
        Some(
            JsonView::Object(
                match v.members() {
                    Some(es) => Seq::new(
                        es.len(),
                        |i: int| (es[i].0, inlined(root, es[i].1, depth + 1)),
                    ),
                    None => Seq::empty(),
                },
            ),
        )
    } else if key == "items"@ {
        Some(inlined(root, v, depth + 1))
    } else if key == "allOf"@ || key == "anyOf"@ || key == "oneOf"@ {
        Some(
            JsonView::Array(
                match v.items() {
                    Some(items) => Seq::new(
                        items.len(),
                        |i: int| inlined(root, items[i], depth + 1),
                    ),
                    None => Seq::empty(),
                },
            ),
        )
    } else if key == "nullable"@ {
        None
    } else {
        Some(v)
    }
}

/// The members `out` with `null` added to the type, where `es` is nullable and the type is
/// a single name.
pub open spec fn with_null(
    es: Seq<(Seq<char>, JsonView)>,
    out: Seq<(Seq<char>, JsonView)>,
) -> Seq<(Seq<char>, JsonView)> {
    match (JsonView::Object(es).flag_at("nullable"@), JsonView::Object(out).text_at("type"@)) {
        (Some(true), Some(t)) => with_entry(
            out,
            "type"@,
            JsonView::Array(seq![JsonView::String(t), JsonView::String("null"@)]),
        ),
        _ => out,
    }
}

impl ParsedSpec {
    /// Resolves a reference into the document; none for a reference to another document.
    pub fn resolve_pointer(&self, reference: &str) -> (r: Option<&Json>)
        ensures
            match r {
                Some(v) => resolved(self@, reference@) == Some(v@),
                None => resolved(self@, reference@) is None,
            },
    {
        match after_prefix(reference, "#") {
            Some(pointer) => self.root.pointer(pointer.as_str()),
            None => None,
        }
    }

    /// Follows the reference that a value consists of.
    pub fn deref<'a>(&'a self, value: &'a Json) -> (r: &'a Json)
        ensures
            r@ == derefed(self@, value@),
    {
        let mut current = value;
        let mut hops: usize = 0;
        while hops < MAX_REF_DEPTH
            invariant
                hops <= MAX_REF_DEPTH,
                derefed(self@, value@) == followed(self@, current@, (MAX_REF_DEPTH - hops) as nat),
            ensures
                current@ == derefed(self@, value@),
            decreases MAX_REF_DEPTH - hops,
        {
            match current.text_at("$ref") {
                Some(reference) => {
                    match self.resolve_pointer(reference) {
                        Some(target) => {
                            current = target;
                        },
                        None => {
                            return current;
                        },
                    }
                },
                None => {
                    return current;
                },
            }
            hops = hops + 1;
        }
        current
    }

    /// Inlines a schema: references are replaced by what they stand for, to a bounded depth,
    /// and `nullable` becomes a type union.
    pub fn inline_schema(&self, schema: &Json, depth: usize) -> (r: Json)
        ensures
            r@ == inlined(self@, schema@, depth as nat),
        decreases MAX_REF_DEPTH - depth, 1int,
    {
        if depth >= MAX_REF_DEPTH {
            return schema.clone();
        }
        if schema.get("$ref").is_some() {
            let target = self.deref(schema);
            if target.get("$ref").is_some() {
                return target.clone();
            }
            return self.inline_schema(target, depth + 1);
        }
        let Some(m) = schema.as_object() else {
            return schema.clone();
        };
        let ghost es = members(*m);
        m.show_order();
        let mut out = no_members();
        let n = m.len();
        assert(es.take(0) =~= Seq::empty());
        for i in 0..n
            invariant
                depth < MAX_REF_DEPTH,
                n == m.entries().len(),
                es == members(*m),
                ascending(m.entries()),
                members(out) == inlined_members(self@, es.take(i as int), depth as nat),
                forall|j: int|
                    0 <= j < members(out).len() ==> exists|k: int|
                        0 <= k < i && #[trigger] members(out)[j].0 == es[k].0,
        {
            let key = m.key_at(i);
            let value = m.value_at(i);
            assert(es[i as int] == (key@, value@));
            assert(es.take(i + 1).drop_last() =~= es.take(i as int));
            assert forall|j: int| 0 <= j < members(out).len() implies before(
                #[trigger] members(out)[j].0,
                key@,
            ) by {
                let k = choose|k: int| 0 <= k < i && members(out)[j].0 == es[k].0;
                assert(es[k].0 == m.entries()[k].0);
            }
            match self.inline_member(key.as_str(), value, depth) {
                Some(v) => {
                    put_last(&mut out, key, v);
                },
                None => {},
            }
        }
        assert(es.take(es.len() as int) =~= es);
        let nullable = match m.get("nullable") {
            Some(v) => v.as_bool(),
            None => None,
        };
        proof {
            lookup_in_mapped(m.entries(), to_tree(), "nullable"@);
            lookup_in_mapped(out.entries(), to_tree(), "type"@);
        }
        if let Some(true) = nullable {
            let mut union: Option<Json> = None;
            if let Some(kind) = out.get("type") {
                if let Some(t) = kind.as_str() {
                    let items: Vec<Json> = vec![Json::from_text(t), Json::from_text("null")];
                    assert(trees(items@) =~= seq![
                        JsonView::String(t@),
                        JsonView::String("null"@),
                    ]);
                    union = Some(Json::from_items(items));
                }
            }
            if let Some(kinds) = union {
                put(&mut out, "type", kinds);
            }
        }
        Json::from_members(out)
    }

    /// Inlines the member `key` of a schema; none where it is left out.
    fn inline_member(&self, key: &str, value: &Json, depth: usize) -> (r: Option<Json>)
        requires
            depth < MAX_REF_DEPTH,
        ensures
            tree_of(r) == inlined_member(self@, key@, value@, depth as nat),
        decreases MAX_REF_DEPTH - depth, 0int,
    {
        if same(key, "properties") {
            let mut fields = no_members();
            if let Some(m) = value.as_object() {
                let ghost es = members(*m);
                let ghost all = Seq::new(
                    es.len(),
                    |i: int| (es[i].0, inlined(self@, es[i].1, (depth + 1) as nat)),
                );
                m.show_order();
                let n = m.len();
                assert(members(fields) =~= all.take(0));
                for i in 0..n
                    invariant
                        depth < MAX_REF_DEPTH,
                        n == m.entries().len(),
                        es == members(*m),
                        ascending(m.entries()),
                        all == Seq::new(
                            es.len(),
                            |i: int| (es[i].0, inlined(self@, es[i].1, (depth + 1) as nat)),
                        ),
                        members(fields) == all.take(i as int),
                {
                    assert(es[i as int] == (m.entries()[i as int].0, m.entries()[i as int].1@));
                    assert forall|j: int| 0 <= j < members(fields).len() implies before(
                        #[trigger] members(fields)[j].0,
                        m.entries()[i as int].0,
                    ) by {
                        assert(members(fields)[j].0 == es[j].0);
                        assert(es[j].0 == m.entries()[j].0);
                    }
                    put_last(
                        &mut fields,
                        m.key_at(i),
                        self.inline_schema(m.value_at(i), depth + 1),
                    );
                    assert(all.take(i + 1) =~= all.take(i as int).push(all[i as int]));
                }
                assert(all.take(n as int) =~= all);
                assert(inlined_member(self@, key@, value@, depth as nat)->Some_0->Object_0
                    =~= all);
            }
            Some(Json::from_members(fields))
        } else if same(key, "items") {
            Some(self.inline_schema(value, depth + 1))
        } else if same(key, "allOf") || same(key, "anyOf") || same(key, "oneOf") {
            let mut list: Vec<Json> = Vec::new();
            assert(trees(list@) =~= Seq::empty());
            if let Some(items) = value.as_array() {
                let ghost vs = trees(items@);
                for i in 0..items.len()
                    invariant
                        depth < MAX_REF_DEPTH,
                        vs == trees(items@),
                        list@.len() == i,
                        forall|j: int|
                            0 <= j < i ==> (#[trigger] list@[j])@ == inlined(
                                self@,
                                vs[j],
                                (depth + 1) as nat,
                            ),
                {
                    assert(vs[i as int] == items@[i as int]@);
                    list.push(self.inline_schema(&items[i], depth + 1));
                }
                assert(inlined_member(self@, key@, value@, depth as nat)->Some_0->Array_0
                    =~= trees(list@));
            }
            Some(Json::from_items(list))
        } else if same(key, "nullable") {
            None
        } else {
            Some(value.clone())
        }
    }
}

/// The operations of a path item under its first `n` methods. One without an
/// `operationId` is left out.
pub open spec fn item_operations(path: Seq<char>, item: JsonView, n: int) -> Seq<OperationMetaView>
    decreases n,
{
    if n <= 0 {
        Seq::empty()
    } else {
        let done = item_operations(path, item, n - 1);
        match operation_at(path, item, methods()[n - 1]) {
            Some(op) => done.push(op),
            None => done,
        }
    }
}

/// The operation of a path item under `method`.
pub open spec fn operation_at(path: Seq<char>, item: JsonView, method: Seq<char>) -> Option<
    OperationMetaView,
> {
    match item.get(method) {
        Some(op) => match op.text_at("operationId"@) {
            Some(id) => Some(
                OperationMetaView {
                    operation_id: id,
                    method,
                    path,
                    path_param_count: occurrences(path, '{'),
                    tags: match op.items_at("tags"@) {
                        Some(items) => texts_in(items),
                        None => Seq::empty(),
                    },
                    summary: op.text_at("summary"@),
                    description: op.text_at("description"@),
                },
            ),
            None => None,
        },
        None => None,
    }
}

/// The operations under the first `n` paths.
pub open spec fn path_operations(paths: Seq<(Seq<char>, JsonView)>, n: int) -> Seq<
    OperationMetaView,
>
    decreases n,
{
    if n <= 0 {
        Seq::empty()
    } else {
        path_operations(paths, n - 1) + item_operations(
            paths[n - 1].0,
            paths[n - 1].1,
            methods().len() as int,
        )
    }
}

/// The operations of a document that carry an `operationId`, path by path.
pub open spec fn document_operations(root: JsonView) -> Seq<OperationMetaView> {
    match root.members_at("paths"@) {
        Some(paths) => path_operations(paths, paths.len() as int),
        None => Seq::empty(),
    }
}

/// A copy of a text that may be missing.
fn own(v: Option<&str>) -> (r: Option<String>)
    ensures
        text_of(r) == (match v {
            Some(s) => Some(s@),
            None => None::<Seq<char>>,
        }),
{
    match v {
        Some(s) => Some(s.to_owned()),
        None => None,
    }
}

impl ParsedSpec {
    /// Every operation that carries an `operationId`, with what filters look at.
    pub fn operations(&self) -> (r: Vec<OperationMeta>)
        ensures
            operation_views(r@) == document_operations(self@),
    {
        let mut out: Vec<OperationMeta> = Vec::new();
        assert(operation_views(out@) =~= Seq::empty());
        let Some(paths) = self.root.members_at("paths") else {
            return out;
        };
        let ghost es = members(*paths);
        let n = paths.len();
        let names = method_list();
        for i in 0..n
            invariant
                n == paths.entries().len(),
                es == members(*paths),
                names@.len() == methods().len(),
                forall|j: int| 0 <= j < names@.len() ==> (#[trigger] names@[j])@ == methods()[j],
                operation_views(out@) == path_operations(es, i as int),
        {
            let path = paths.key_at(i);
            let item = paths.value_at(i);
            assert(es[i as int] == (path@, item@));
            let ghost done = operation_views(out@);
            assert(done + item_operations(path@, item@, 0) =~= done);
            for k in 0..names.len()
                invariant
                    names@.len() == methods().len(),
                    forall|j: int|
                        0 <= j < names@.len() ==> (#[trigger] names@[j])@ == methods()[j],
                    operation_views(out@) == done + item_operations(path@, item@, k as int),
            {
                match self.operation_under(path, item, names[k]) {
                    Some(op) => {
                        let ghost list = out@;
                        out.push(op);
                        assert(operation_views(out@) =~= operation_views(list).push(op@));
                        assert(operation_views(out@) =~= done + item_operations(
                            path@,
                            item@,
                            k + 1,
                        ));
                    },
                    None => {},
                }
            }
        }
        out
    }

    /// The operation of a path item under `method`.
    fn operation_under(&self, path: &String, item: &Json, method: &str) -> (r: Option<
        OperationMeta,
    >)
        ensures
            match r {
                Some(op) => operation_at(path@, item@, method@) == Some(op@),
                None => operation_at(path@, item@, method@) is None,
            },
    {
        let Some(op) = item.get(method) else {
            return None;
        };
        let Some(id) = op.text_at("operationId") else {
            return None;
        };
        let tags = match op.items_at("tags") {
            Some(items) => list_texts(items),
            None => {
                let none: Vec<String> = Vec::new();
                assert(texts(none@) =~= Seq::empty());
                none
            },
        };
        let meta = OperationMeta {
            operation_id: id.to_owned(),
            method: method.to_owned(),
            path: path.clone(),
            path_param_count: count(path.as_str(), '{'),
            tags,
            summary: own(op.text_at("summary")),
            description: own(op.text_at("description")),
        };
        Some(meta)
    }
}

/// A security scheme as far as a secret can be sent under it.
#[derive(Debug, Clone, PartialEq, Eq)]
pub enum SecurityScheme {
    ApiKeyHeader { name: String },
    ApiKeyQuery { name: String },
    /// `Authorization: Bearer <value>`: HTTP bearer, OAuth 2, OpenID Connect.
    Bearer,
    /// `Authorization: Basic base64(<value>)`.
    Basic,
    /// Mutual TLS, a key in a cookie, or unknown: nothing is sent.
    Unsupported,
}

/// What a security scheme is.
pub enum SecuritySchemeView {
    ApiKeyHeader { name: Seq<char> },
    ApiKeyQuery { name: Seq<char> },
    Bearer,
    Basic,
    Unsupported,
}

impl View for SecurityScheme {
    type V = SecuritySchemeView;

    open spec fn view(&self) -> SecuritySchemeView {
        match *self {
            SecurityScheme::ApiKeyHeader { name } => SecuritySchemeView::ApiKeyHeader {
                name: name@,
            },
            SecurityScheme::ApiKeyQuery { name } => SecuritySchemeView::ApiKeyQuery { name: name@ },
            SecurityScheme::Bearer => SecuritySchemeView::Bearer,
            SecurityScheme::Basic => SecuritySchemeView::Basic,
            SecurityScheme::Unsupported => SecuritySchemeView::Unsupported,
        }
    }
}

/// The schemes of a map.
pub open spec fn schemes(m: TextMap<SecurityScheme>) -> Seq<(Seq<char>, SecuritySchemeView)> {
    mapped(m.entries(), |s: SecurityScheme| s@)
}

/// The scheme that a definition declares.
pub open spec fn scheme_declared(def: JsonView) -> SecuritySchemeView {
    let kind = def.text_at("type"@);
    if kind == Some("apiKey"@) {
        let name = match def.text_at("name"@) {
            Some(s) => s,
            None => Seq::empty(),
        };
        let place = match def.text_at("in"@) {
            Some(s) => s,
            None => "header"@,
        };
        if place == "query"@ {
            SecuritySchemeView::ApiKeyQuery { name }
        } else if place == "header"@ {
            SecuritySchemeView::ApiKeyHeader { name }
        } else {
            SecuritySchemeView::Unsupported
        }
    } else if kind == Some("http"@) {
        match def.text_at("scheme"@) {
            Some(s) => if lower(s) == "bearer"@ {
                SecuritySchemeView::Bearer
            } else if lower(s) == "basic"@ {
                SecuritySchemeView::Basic
            } else {
                SecuritySchemeView::Unsupported
            },
            None => SecuritySchemeView::Unsupported,
        }
    } else if kind == Some("oauth2"@) || kind == Some("openIdConnect"@) {
        SecuritySchemeView::Bearer
    } else {
        SecuritySchemeView::Unsupported
    }
}

/// The schemes that `es` declares. What is not an object is left out.
pub open spec fn declared_schemes(root: JsonView, es: Seq<(Seq<char>, JsonView)>) -> Seq<
    (Seq<char>, SecuritySchemeView),
>
    decreases es.len(),
{
    if es.len() == 0 {
        Seq::empty()
    } else {
        let done = declared_schemes(root, es.drop_last());
        let def = derefed(root, es.last().1);
        if def.members() is Some {
            done.push((es.last().0, scheme_declared(def)))
        } else {
            done
        }
    }
}

/// The security schemes of a document, by name.
pub open spec fn document_schemes(root: JsonView) -> Seq<(Seq<char>, SecuritySchemeView)> {
    match pointed(root, "/components/securitySchemes"@) {
        Some(v) => match v.members() {
            Some(es) => declared_schemes(root, es),
            None => Seq::empty(),
        },
        None => Seq::empty(),
    }
}

/// The scheme that a definition declares.
fn read_scheme(def: &Json) -> (r: SecurityScheme)
    ensures
        r@ == scheme_declared(def@),
{
    let kind = match def.text_at("type") {
        Some(s) => s,
        None => {
            return SecurityScheme::Unsupported;
        },
    };
    if same(kind, "apiKey") {
        let name = match def.text_at("name") {
            Some(s) => s.to_owned(),
            None => String::new(),
        };
        let place = match def.text_at("in") {
            Some(s) => s,
            None => "header",
        };
        if same(place, "query") {
            SecurityScheme::ApiKeyQuery { name }
        } else if same(place, "header") {
            SecurityScheme::ApiKeyHeader { name }
        } else {
            SecurityScheme::Unsupported
        }
    } else if same(kind, "http") {
        match def.text_at("scheme") {
            Some(s) => {
                let scheme = lower_case(s);
                if same(scheme.as_str(), "bearer") {
                    SecurityScheme::Bearer
                } else if same(scheme.as_str(), "basic") {
                    SecurityScheme::Basic
                } else {
                    SecurityScheme::Unsupported
                }
            },
            None => SecurityScheme::Unsupported,
        }
    } else if same(kind, "oauth2") || same(kind, "openIdConnect") {
        SecurityScheme::Bearer
    } else {
        SecurityScheme::Unsupported
    }
}

impl ParsedSpec {
    /// The security schemes of the document, by name. One that cannot be sent is
    /// `Unsupported`.
    pub fn security_schemes(&self) -> (r: TextMap<SecurityScheme>)
        ensures
            schemes(r) == document_schemes(self@),
    {
        let mut out: TextMap<SecurityScheme> = TextMap::new();
        assert(schemes(out) =~= Seq::empty());
        let found = self.root.pointer("/components/securitySchemes");
        let Some(holder) = found else {
            return out;
        };
        let Some(m) = holder.as_object() else {
            return out;
        };
        let ghost es = members(*m);
        m.show_order();
        let n = m.len();
        assert(es.take(0) =~= Seq::empty());
        for i in 0..n
            invariant
                n == m.entries().len(),
                es == members(*m),
                ascending(m.entries()),
                schemes(out) == declared_schemes(self@, es.take(i as int)),
                forall|j: int|
                    0 <= j < out.entries().len() ==> exists|k: int|
                        0 <= k < i && #[trigger] out.entries()[j].0 == es[k].0,
        {
            let key = m.key_at(i);
            let def = self.deref(m.value_at(i));
            assert(es[i as int] == (key@, m.entries()[i as int].1@));
            assert(es.take(i + 1).drop_last() =~= es.take(i as int));
            if def.as_object().is_some() {
                assert forall|j: int| 0 <= j < out.entries().len() implies before(
                    #[trigger] out.entries()[j].0,
                    key@,
                ) by {
                    let k = choose|k: int| 0 <= k < i && out.entries()[j].0 == es[k].0;
                    assert(es[k].0 == m.entries()[k].0);
                }
                let scheme = read_scheme(def);
                let ghost done = schemes(out);
                out.insert_last(key.clone(), scheme);
                assert(schemes(out) =~= done.push((key@, scheme@)));
            }
        }
        assert(es.take(es.len() as int) =~= es);
        out
    }
}

/// The names of the schemes that an operation is secured by: those of the first requirement
/// of its own `security`, or of the document's where it has none.
pub open spec fn auth_names(root: JsonView, op: JsonView) -> Seq<Seq<char>> {
    let security = match op.get("security"@) {
        Some(v) => Some(v),
        None => root.get("security"@),
    };
    match security {
        Some(v) => match v.items() {
            Some(items) => if items.len() > 0 {
                match items[0].members() {
                    Some(es) => keys_of(es),
                    None => Seq::empty(),
                }
            } else {
                Seq::empty()
            },
            None => Seq::empty(),
        },
        None => Seq::empty(),
    }
}

/// The schema that a request body or a response gives for JSON.
pub open spec fn json_schema(v: JsonView) -> Option<JsonView> {
    match v.get("content"@) {
        Some(content) => match content.get("application/json"@) {
            Some(media) => media.get("schema"@),
            None => None,
        },
        None => None,
    }
}

/// The plan of the body of an operation, where it has one in JSON.
pub open spec fn body_planned(root: JsonView, op: JsonView) -> Option<BodyPlanView> {
    match op.get("requestBody"@) {
        Some(raw) => {
            let body = derefed(root, raw);
            match json_schema(body) {
                Some(schema) => Some(
                    BodyPlanView {
                        required: body.flag_at("required"@) == Some(true),
                        schema: inlined(root, schema, 0),
                    },
                ),
                None => None,
            }
        },
        None => None,
    }
}

/// The schema of the first response in `es` that is a success and has one for JSON.
pub open spec fn first_success(root: JsonView, es: Seq<(Seq<char>, JsonView)>) -> Option<JsonView>
    decreases es.len(),
{
    if es.len() == 0 {
        None
    } else {
        match json_schema(derefed(root, es[0].1)) {
            Some(schema) if es[0].0.len() > 0 && es[0].0[0] == '2' => Some(
                inlined(root, schema, 0),
            ),
            _ => first_success(root, es.skip(1)),
        }
    }
}

/// The schema of the lowest success response that has one for JSON.
pub open spec fn output_planned(root: JsonView, op: JsonView) -> Option<JsonView> {
    match op.get("responses"@) {
        Some(raw) => match derefed(root, raw).members() {
            Some(es) => first_success(root, es),
            None => None,
        },
        None => None,
    }
}

/// What tells a parameter from others: its name and its `in`.
pub open spec fn param_key(root: JsonView, raw: JsonView) -> Option<(Seq<char>, Seq<char>)> {
    let def = derefed(root, raw);
    match (def.text_at("name"@), def.text_at("in"@)) {
        (Some(name), Some(place)) => Some((name, place)),
        _ => None,
    }
}

/// What tells each of the parameters from others.
pub open spec fn keys_declared(root: JsonView, raws: Seq<JsonView>) -> Seq<(Seq<char>, Seq<char>)>
    decreases raws.len(),
{
    if raws.len() == 0 {
        Seq::empty()
    } else {
        match param_key(root, raws.last()) {
            Some(key) => keys_declared(root, raws.drop_last()).push(key),
            None => keys_declared(root, raws.drop_last()),
        }
    }
}

/// The plan of the parameter that `def` defines under `name`.
pub open spec fn param_planned(
    root: JsonView,
    def: JsonView,
    name: Seq<char>,
    place: Seq<char>,
) -> ParamPlanView {
    ParamPlanView {
        name,
        location: location_named(place),
        required: def.flag_at("required"@) == Some(true),
        description: def.text_at("description"@),
        schema: match def.get("schema"@) {
            Some(schema) => inlined(root, schema, 0),
            None => JsonView::Object(Seq::empty()),
        },
    }
}

/// The plans of the parameters in `raws`: of those with one name and `in` the first, and none
/// that is among `barred`.
pub open spec fn params_planned(
    root: JsonView,
    raws: Seq<JsonView>,
    barred: Seq<(Seq<char>, Seq<char>)>,
) -> Seq<ParamPlanView>
    decreases raws.len(),
{
    if raws.len() == 0 {
        Seq::empty()
    } else {
        let done = params_planned(root, raws.drop_last(), barred);
        match param_key(root, raws.last()) {
            Some(key) => if barred.contains(key) || keys_declared(
                root,
                raws.drop_last(),
            ).contains(key) {
                done
            } else {
                done.push(param_planned(root, derefed(root, raws.last()), key.0, key.1))
            },
            None => done,
        }
    }
}

/// The plan of the operation `op` under `path` and `method`. A parameter of the operation
/// stands in place of one of its path with the same name and `in`.
pub open spec fn planned(
    root: JsonView,
    id: Seq<char>,
    method: Seq<char>,
    path: Seq<char>,
    item: JsonView,
    op: JsonView,
) -> OperationPlanView {
    let shared = match item.items_at("parameters"@) {
        Some(raws) => raws,
        None => Seq::empty(),
    };
    let own = match op.items_at("parameters"@) {
        Some(raws) => raws,
        None => Seq::empty(),
    };
    OperationPlanView {
        operation_id: id,
        method: upper(method),
        path_template: path,
        params: params_planned(root, shared, keys_declared(root, own)) + params_planned(
            root,
            own,
            Seq::empty(),
        ),
        body: body_planned(root, op),
        output_schema: output_planned(root, op),
        auth_schemes: auth_names(root, op),
    }
}

/// The first method, from `n` on, under which a path item has the operation `id`.
pub open spec fn method_of(item: JsonView, id: Seq<char>, n: int) -> Option<int>
    decreases methods().len() - n,
{
    if n < 0 || n >= methods().len() {
        None
    } else {
        match item.get(methods()[n]) {
            Some(op) if op.text_at("operationId"@) == Some(id) => Some(n),
            _ => method_of(item, id, n + 1),
        }
    }
}

/// The plan of the first operation called `id` under `paths`.
pub open spec fn plan_under(
    root: JsonView,
    paths: Seq<(Seq<char>, JsonView)>,
    id: Seq<char>,
) -> Option<OperationPlanView>
    decreases paths.len(),
{
    if paths.len() == 0 {
        None
    } else {
        let (path, item) = paths[0];
        match method_of(item, id, 0) {
            Some(n) => Some(
                planned(root, id, methods()[n], path, item, item.get(methods()[n])->Some_0),
            ),
            None => plan_under(root, paths.skip(1), id),
        }
    }
}

/// The plan of the operation called `id`, or why there is none.
pub open spec fn plan_of(root: JsonView, id: Seq<char>) -> Result<OperationPlanView, Seq<char>> {
    match root.members_at("paths"@) {
        Some(paths) => match plan_under(root, paths, id) {
            Some(plan) => Ok(plan),
            None => Err("operationId '"@ + id + "' not found in spec"@),
        },
        None => Err("spec has no `paths` object"@),
    }
}

/// Whether `(a, b)` is among `list`.
fn has_pair(list: &Vec<(String, String)>, a: &str, b: &str) -> (r: bool)
    ensures
        r == pair_texts(list@).contains((a@, b@)),
{
    for i in 0..list.len()
        invariant
            forall|j: int| 0 <= j < i ==> (#[trigger] pair_texts(list@)[j]) != (a@, b@),
    {
        if same(list[i].0.as_str(), a) && same(list[i].1.as_str(), b) {
            assert(pair_texts(list@)[i as int] == (a@, b@));
            return true;
        }
    }
    false
}

impl ParsedSpec {
    /// The names of the schemes that an operation is secured by.
    pub fn effective_auth_schemes(&self, op: &Json) -> (r: Vec<String>)
        ensures
            texts(r@) == auth_names(self@, op@),
    {
        let security = match op.get("security") {
            Some(v) => Some(v),
            None => self.root.get("security"),
        };
        if let Some(v) = security {
            if let Some(items) = v.as_array() {
                if items.len() > 0 {
                    assert(trees(items@)[0] == items@[0]@);
                    if let Some(first) = items[0].as_object() {
                        assert(keys_of(members(*first)) =~= keys_of(first.entries()));
                        return first.keys();
                    }
                }
            }
        }
        let none: Vec<String> = Vec::new();
        assert(texts(none@) =~= Seq::empty());
        none
    }

    /// The schema that a request body or a response gives for JSON.
    fn json_schema<'a>(&self, v: &'a Json) -> (r: Option<&'a Json>)
        ensures
            match r {
                Some(s) => json_schema(v@) == Some(s@),
                None => json_schema(v@) is None,
            },
    {
        match v.get("content") {
            Some(content) => match content.get("application/json") {
                Some(media) => media.get("schema"),
                None => None,
            },
            None => None,
        }
    }

    /// The plan of the body of an operation, where it has one in JSON.
    pub fn build_body_plan(&self, op: &Json) -> (r: Option<BodyPlan>)
        ensures
            match r {
                Some(b) => body_planned(self@, op@) == Some(b@),
                None => body_planned(self@, op@) is None,
            },
    {
        let Some(raw) = op.get("requestBody") else {
            return None;
        };
        let body = self.deref(raw);
        let required = match body.flag_at("required") {
            Some(b) => b,
            None => false,
        };
        match self.json_schema(body) {
            Some(schema) => Some(BodyPlan { required, schema: self.inline_schema(schema, 0) }),
            None => None,
        }
    }

    /// The schema of the lowest success response that has one for JSON.
    pub fn derive_output_schema(&self, op: &Json) -> (r: Option<Json>)
        ensures
            tree_of(r) == output_planned(self@, op@),
    {
        let Some(raw) = op.get("responses") else {
            return None;
        };
        let Some(responses) = self.deref(raw).as_object() else {
            return None;
        };
        let ghost es = members(*responses);
        let n = responses.len();
        assert(es.skip(0) =~= es);
        for i in 0..n
            invariant
                n == responses.entries().len(),
                es == members(*responses),
                output_planned(self@, op@) == first_success(self@, es.skip(i as int)),
        {
            let code = responses.key_at(i);
            let response = responses.value_at(i);
            assert(es.skip(i as int)[0] == (code@, response@));
            assert(es.skip(i as int).skip(1) =~= es.skip(i + 1));
            proof {
                reveal_strlit("2");
            }
            if begins_with(code.as_str(), "2") {
                assert(code@.subrange(0, 1)[0] == code@[0]);
                if let Some(schema) = self.json_schema(self.deref(response)) {
                    return Some(self.inline_schema(schema, 0));
                }
            } else if code.as_str().is_empty() {
            } else {
                assert(code@[0] == '2' ==> "2"@ =~= code@.subrange(0, 1));
            }
        }
        None
    }

    /// What tells each of the parameters from others.
    fn declared_keys(&self, raws: &Vec<Json>) -> (r: Vec<(String, String)>)
        ensures
            pair_texts(r@) == keys_declared(self@, trees(raws@)),
    {
        let mut out: Vec<(String, String)> = Vec::new();
        let ghost all = trees(raws@);
        assert(pair_texts(out@) =~= keys_declared(self@, all.take(0)));
        for i in 0..raws.len()
            invariant
                all == trees(raws@),
                pair_texts(out@) == keys_declared(self@, all.take(i as int)),
        {
            assert(all.take(i + 1).drop_last() =~= all.take(i as int));
            assert(all.take(i + 1).last() == raws@[i as int]@);
            let def = self.deref(&raws[i]);
            if let (Some(name), Some(place)) = (def.text_at("name"), def.text_at("in")) {
                let ghost done = out@;
                let key = (name.to_owned(), place.to_owned());
                out.push(key);
                assert(pair_texts(out@) =~= pair_texts(done).push((name@, place@)));
            }
        }
        assert(all.take(all.len() as int) =~= all);
        out
    }

    /// Adds the plans of the parameters in `raws` to `params`.
    fn add_params(
        &self,
        raws: &Vec<Json>,
        barred: &Vec<(String, String)>,
        params: &mut Vec<ParamPlan>,
    )
        ensures
            param_views(final(params)@) == param_views(old(params)@) + params_planned(
                self@,
                trees(raws@),
                pair_texts(barred@),
            ),
    {
        let ghost before = param_views(params@);
        let ghost all = trees(raws@);
        let mut seen: Vec<(String, String)> = Vec::new();
        assert(pair_texts(seen@) =~= keys_declared(self@, all.take(0)));
        assert(before + params_planned(self@, all.take(0), pair_texts(barred@)) =~= before);
        for i in 0..raws.len()
            invariant
                all == trees(raws@),
                pair_texts(seen@) == keys_declared(self@, all.take(i as int)),
                param_views(params@) == before + params_planned(
                    self@,
                    all.take(i as int),
                    pair_texts(barred@),
                ),
        {
            assert(all.take(i + 1).drop_last() =~= all.take(i as int));
            assert(all.take(i + 1).last() == raws@[i as int]@);
            let def = self.deref(&raws[i]);
            if let (Some(name), Some(place)) = (def.text_at("name"), def.text_at("in")) {
                let free = !has_pair(barred, name, place) && !has_pair(&seen, name, place);
                let ghost done = seen@;
                seen.push((name.to_owned(), place.to_owned()));
                assert(pair_texts(seen@) =~= pair_texts(done).push((name@, place@)));
                if free {
                    let ghost list = params@;
                    let p = self.plan_param(def, name, place);
                    params.push(p);
                    assert(param_views(params@) =~= param_views(list).push(p@));
                    assert(param_views(params@) =~= before + params_planned(
                        self@,
                        all.take(i + 1),
                        pair_texts(barred@),
                    ));
                }
            }
        }
        assert(all.take(all.len() as int) =~= all);
    }

    /// The plan of the parameter that `def` defines under `name`.
    fn plan_param(&self, def: &Json, name: &str, place: &str) -> (r: ParamPlan)
        ensures
            r@ == param_planned(self@, def@, name@, place@),
    {
        let schema = match def.get("schema") {
            Some(schema) => self.inline_schema(schema, 0),
            None => Json::from_members(no_members()),
        };
        ParamPlan {
            name: name.to_owned(),
            location: ParamLocation::parse(place),
            required: match def.flag_at("required") {
                Some(b) => b,
                None => false,
            },
            description: own(def.text_at("description")),
            schema,
        }
    }

    /// The plan of the operation `op` under `path` and `method`.
    pub fn build_plan(
        &self,
        operation_id: &str,
        method: &str,
        path: &String,
        item: &Json,
        op: &Json,
    ) -> (r: OperationPlan)
        ensures
            r@ == planned(self@, operation_id@, method@, path@, item@, op@),
    {
        let mut params: Vec<ParamPlan> = Vec::new();
        let none: Vec<(String, String)> = Vec::new();
        let ghost root = self@;
        assert(pair_texts(none@) =~= Seq::empty());
        assert(param_views(params@) =~= Seq::empty());
        let own_keys = match op.items_at("parameters") {
            Some(raws) => self.declared_keys(raws),
            None => {
                let none: Vec<(String, String)> = Vec::new();
                assert(pair_texts(none@) =~= keys_declared(root, Seq::empty()));
                none
            },
        };
        if let Some(raws) = item.items_at("parameters") {
            self.add_params(raws, &own_keys, &mut params);
        }
        if let Some(raws) = op.items_at("parameters") {
            self.add_params(raws, &none, &mut params);
        }
        let plan = OperationPlan {
            operation_id: operation_id.to_owned(),
            method: upper_case(method),
            path_template: path.clone(),
            params,
            body: self.build_body_plan(op),
            output_schema: self.derive_output_schema(op),
            auth_schemes: self.effective_auth_schemes(op),
        };
        assert(plan@.params =~= planned(self@, operation_id@, method@, path@, item@, op@).params);
        plan
    }

    /// The method under which a path item has the operation `id`.
    fn find_method<'a>(&self, item: &'a Json, id: &str) -> (r: Option<(&'static str, &'a Json)>)
        ensures
            match r {
                Some((method, op)) => ({
                    &&& method_of(item@, id@, 0) is Some
                    &&& method@ == methods()[method_of(item@, id@, 0)->Some_0]
                    &&& item@.get(method@) == Some(op@)
                }),
                None => method_of(item@, id@, 0) is None,
            },
    {
        let names = method_list();
        for i in 0..names.len()
            invariant
                names@.len() == methods().len(),
                forall|j: int| 0 <= j < names@.len() ==> (#[trigger] names@[j])@ == methods()[j],
                method_of(item@, id@, 0) == method_of(item@, id@, i as int),
        {
            if let Some(op) = item.get(names[i]) {
                if let Some(found) = op.text_at("operationId") {
                    if same(found, id) {
                        return Some((names[i], op));
                    }
                }
            }
        }
        None
    }

    /// The plan of the operation called `operation_id`, or why there is none.
    pub fn operation_plan(&self, operation_id: &str) -> (r: Result<OperationPlan, String>)
        ensures
            match r {
                Ok(plan) => plan_of(self@, operation_id@) == Ok::<OperationPlanView, Seq<char>>(
                    plan@,
                ),
                Err(e) => plan_of(self@, operation_id@) == Err::<OperationPlanView, Seq<char>>(e@),
            },
    {
        let Some(paths) = self.root.members_at("paths") else {
            return Err("spec has no `paths` object".to_owned());
        };
        let ghost es = members(*paths);
        let n = paths.len();
        assert(es.skip(0) =~= es);
        for i in 0..n
            invariant
                n == paths.entries().len(),
                es == members(*paths),
                self@.members_at("paths"@) == Some(es),
                plan_under(self@, es, operation_id@) == plan_under(
                    self@,
                    es.skip(i as int),
                    operation_id@,
                ),
        {
            let path = paths.key_at(i);
            let item = paths.value_at(i);
            assert(es.skip(i as int)[0] == (path@, item@));
            assert(es.skip(i as int).skip(1) =~= es.skip(i + 1));
            if let Some((method, op)) = self.find_method(item, operation_id) {
                return Ok(self.build_plan(operation_id, method, path, item, op));
            }
        }
        Err(join3("operationId '", operation_id, "' not found in spec"))
    }
}

/// A path item that has the operation `id` under method `k` has it under a method from `n` on,
/// where `n` is not beyond `k`.
proof fn method_is_found(item: JsonView, id: Seq<char>, n: int, k: int)
    requires
        0 <= n <= k < methods().len(),
        item.get(methods()[k]) is Some,
        item.get(methods()[k])->Some_0.text_at("operationId"@) == Some(id),
    ensures
        method_of(item, id, n) is Some,
    decreases k - n,
{
    if n < k {
        method_is_found(item, id, n + 1, k);
    }
}

/// What is found as the method of an operation does carry its name.
proof fn method_carries_name(item: JsonView, id: Seq<char>, n: int)
    requires
        method_of(item, id, n) is Some,
    ensures
        ({
            let k = method_of(item, id, n)->Some_0;
            &&& 0 <= k < methods().len()
            &&& item.get(methods()[k]) is Some
            &&& item.get(methods()[k])->Some_0.text_at("operationId"@) == Some(id)
        }),
    decreases methods().len() - n,
{
    match item.get(methods()[n]) {
        Some(op) if op.text_at("operationId"@) == Some(id) => {},
        _ => {
            method_carries_name(item, id, n + 1);
        },
    }
}

/// An operation listed under a path item is found there by its name.
proof fn listed_under_item(path: Seq<char>, item: JsonView, n: int, i: int)
    requires
        0 <= n <= methods().len(),
        0 <= i < item_operations(path, item, n).len(),
    ensures
        method_of(item, item_operations(path, item, n)[i].operation_id, 0) is Some,
    decreases n,
{
    let done = item_operations(path, item, n - 1);
    if i < done.len() {
        listed_under_item(path, item, n - 1, i);
    } else {
        method_is_found(item, item_operations(path, item, n)[i].operation_id, 0, n - 1);
    }
}

/// An operation found under a path item is listed there.
proof fn found_under_item(path: Seq<char>, item: JsonView, n: int, k: int)
    requires
        0 <= k < n <= methods().len(),
        operation_at(path, item, methods()[k]) is Some,
    ensures
        item_operations(path, item, n).contains(operation_at(path, item, methods()[k])->Some_0),
    decreases n,
{
    let op = operation_at(path, item, methods()[k])->Some_0;
    let all = item_operations(path, item, n);
    if k == n - 1 {
        assert(all.last() == op);
    } else {
        found_under_item(path, item, n - 1, k);
        let done = item_operations(path, item, n - 1);
        let j = choose|j: int| 0 <= j < done.len() && done[j] == op;
        assert(all[j] == op);
    }
}

/// An operation listed under paths comes from one of them.
proof fn listed_under_paths(paths: Seq<(Seq<char>, JsonView)>, n: int, i: int) -> (p: int)
    requires
        0 <= n <= paths.len(),
        0 <= i < path_operations(paths, n).len(),
    ensures
        0 <= p < n,
        method_of(paths[p].1, path_operations(paths, n)[i].operation_id, 0) is Some,
    decreases n,
{
    let done = path_operations(paths, n - 1);
    if i < done.len() {
        listed_under_paths(paths, n - 1, i)
    } else {
        let last = methods().len() as int;
        listed_under_item(paths[n - 1].0, paths[n - 1].1, last, i - done.len());
        n - 1
    }
}

/// Where one of the paths has the operation `id`, there is a plan of that name.
proof fn plan_is_found(root: JsonView, paths: Seq<(Seq<char>, JsonView)>, id: Seq<char>, p: int)
    requires
        0 <= p < paths.len(),
        method_of(paths[p].1, id, 0) is Some,
    ensures
        plan_under(root, paths, id) is Some,
    decreases paths.len(),
{
    if p > 0 && method_of(paths[0].1, id, 0) is None {
        assert(paths.skip(1)[p - 1] == paths[p]);
        plan_is_found(root, paths.skip(1), id, p - 1);
    }
}

/// A plan comes from one of the paths, and carries the name of its operation.
proof fn plan_comes_from_path(root: JsonView, paths: Seq<(Seq<char>, JsonView)>, id: Seq<char>) -> (p:
    int)
    requires
        plan_under(root, paths, id) is Some,
    ensures
        0 <= p < paths.len(),
        method_of(paths[p].1, id, 0) is Some,
        plan_under(root, paths, id)->Some_0.operation_id == id,
    decreases paths.len(),
{
    if method_of(paths[0].1, id, 0) is Some {
        0
    } else {
        let p = plan_comes_from_path(root, paths.skip(1), id);
        assert(paths.skip(1)[p] == paths[p + 1]);
        p + 1
    }
}

/// The operations of a path are among those of all paths.
proof fn item_among_paths(
    paths: Seq<(Seq<char>, JsonView)>,
    n: int,
    p: int,
    op: OperationMetaView,
)
    requires
        0 <= p < n <= paths.len(),
        item_operations(paths[p].0, paths[p].1, methods().len() as int).contains(op),
    ensures
        path_operations(paths, n).contains(op),
    decreases n,
{
    let done = path_operations(paths, n - 1);
    let own = item_operations(paths[n - 1].0, paths[n - 1].1, methods().len() as int);
    let all = path_operations(paths, n);
    if p == n - 1 {
        let j = choose|j: int| 0 <= j < own.len() && own[j] == op;
        assert(all[done.len() + j] == op);
    } else {
        item_among_paths(paths, n - 1, p, op);
        let j = choose|j: int| 0 <= j < done.len() && done[j] == op;
        assert(all[j] == op);
    }
}

/// Every operation that a document lists can be planned by its name.
pub proof fn listed_operations_have_plans(root: JsonView, i: int)
    requires
        0 <= i < document_operations(root).len(),
    ensures
        plan_of(root, document_operations(root)[i].operation_id) is Ok,
{
    let paths = root.members_at("paths"@)->Some_0;
    let p = listed_under_paths(paths, paths.len() as int, i);
    plan_is_found(root, paths, document_operations(root)[i].operation_id, p);
}

/// Every operation that can be planned is one that the document lists, and its plan carries
/// its name.
pub proof fn planned_operations_are_listed(root: JsonView, id: Seq<char>)
    requires
        plan_of(root, id) is Ok,
    ensures
        plan_of(root, id)->Ok_0.operation_id == id,
        exists|i: int|
            0 <= i < document_operations(root).len() && #[trigger] document_operations(
                root,
            )[i].operation_id == id,
{
    let paths = root.members_at("paths"@)->Some_0;
    let p = plan_comes_from_path(root, paths, id);
    let (path, item) = paths[p];
    method_carries_name(item, id, 0);
    let k = method_of(item, id, 0)->Some_0;
    found_under_item(path, item, methods().len() as int, k);
    let op = operation_at(path, item, methods()[k])->Some_0;
    item_among_paths(paths, paths.len() as int, p, op);
    let i = choose|i: int|
        0 <= i < document_operations(root).len() && document_operations(root)[i] == op;
    assert(document_operations(root)[i].operation_id == id);
}

}
