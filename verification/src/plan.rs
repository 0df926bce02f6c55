//! The plan of an operation: its parameters and body, the argument names that they get,
//! and the input schema that follows.
use crate::json::{
    copy_members, members, no_members, object, object_of, pair_trees, put, tree_of,
    tree_of_object, trees, Json, JsonView,
};
use crate::text::{is_one_of, join3, same, text_of, texts};
use crate::text_map::{keys_of, lookup, with_entry, TextMap};
use vstd::prelude::*;

verus! {

/// Where a parameter is sent.
#[derive(Debug, Clone, Copy, PartialEq, Eq, Structural)]
pub enum ParamLocation {
    Path,
    Query,
    Header,
    Cookie,
}

/// The location that the `in` of a parameter names; what is not known is a query.
pub open spec fn location_named(s: Seq<char>) -> ParamLocation {
    if s == "path"@ {
        ParamLocation::Path
    } else if s == "header"@ {
        ParamLocation::Header
    } else if s == "cookie"@ {
        ParamLocation::Cookie
    } else {
        ParamLocation::Query
    }
}

/// The name of a location.
pub open spec fn location_prefix(l: ParamLocation) -> Seq<char> {
    match l {
        ParamLocation::Path => "path"@,
        ParamLocation::Query => "query"@,
        ParamLocation::Header => "header"@,
        ParamLocation::Cookie => "cookie"@,
    }
}

impl ParamLocation {
    /// The location that the `in` of a parameter names.
    pub fn parse(s: &str) -> (r: Self)
        ensures
            r == location_named(s@),
    {
        if same(s, "path") {
            ParamLocation::Path
        } else if same(s, "header") {
            ParamLocation::Header
        } else if same(s, "cookie") {
            ParamLocation::Cookie
        } else {
            ParamLocation::Query
        }
    }

    /// The name that sets a parameter apart from a body field of the same name.
    pub fn prefix(self) -> (r: &'static str)
        ensures
            r@ == location_prefix(self),
    {
        match self {
            ParamLocation::Path => "path",
            ParamLocation::Query => "query",
            ParamLocation::Header => "header",
            ParamLocation::Cookie => "cookie",
        }
    }
}

/// One parameter of an operation.
#[derive(Debug, Clone)]
pub struct ParamPlan {
    pub name: String,
    pub location: ParamLocation,
    pub required: bool,
    pub description: Option<String>,
    pub schema: Json,
}

/// What a parameter is.
pub struct ParamPlanView {
    pub name: Seq<char>,
    pub location: ParamLocation,
    pub required: bool,
    pub description: Option<Seq<char>>,
    pub schema: JsonView,
}

impl View for ParamPlan {
    type V = ParamPlanView;

    open spec fn view(&self) -> ParamPlanView {
        ParamPlanView {
            name: self.name@,
            location: self.location,
            required: self.required,
            description: text_of(self.description),
            schema: self.schema@,
        }
    }
}

/// The request body of an operation.
#[derive(Debug, Clone)]
pub struct BodyPlan {
    pub required: bool,
    pub schema: Json,
}

/// What a request body is.
pub struct BodyPlanView {
    pub required: bool,
    pub schema: JsonView,
}

impl View for BodyPlan {
    type V = BodyPlanView;

    open spec fn view(&self) -> BodyPlanView {
        BodyPlanView { required: self.required, schema: self.schema@ }
    }
}

/// Everything needed to derive the tool schema and build a request.
#[derive(Debug, Clone)]
pub struct OperationPlan {
    pub operation_id: String,
    pub method: String,
    pub path_template: String,
    pub params: Vec<ParamPlan>,
    pub body: Option<BodyPlan>,
    pub output_schema: Option<Json>,
    /// Names of the security schemes to apply to this operation.
    pub auth_schemes: Vec<String>,
}

/// What a plan is.
pub struct OperationPlanView {
    pub operation_id: Seq<char>,
    pub method: Seq<char>,
    pub path_template: Seq<char>,
    pub params: Seq<ParamPlanView>,
    pub body: Option<BodyPlanView>,
    pub output_schema: Option<JsonView>,
    pub auth_schemes: Seq<Seq<char>>,
}

/// What each of the parameters is.
pub open spec fn param_views(params: Seq<ParamPlan>) -> Seq<ParamPlanView> {
    params.map_values(|p: ParamPlan| p@)
}

impl View for OperationPlan {
    type V = OperationPlanView;

    open spec fn view(&self) -> OperationPlanView {
        OperationPlanView {
            operation_id: self.operation_id@,
            method: self.method@,
            path_template: self.path_template@,
            params: param_views(self.params@),
            body: match self.body {
                Some(b) => Some(b@),
                None => None,
            },
            output_schema: tree_of(self.output_schema),
            auth_schemes: texts(self.auth_schemes@),
        }
    }
}

/// How the request body maps onto the flat tool arguments.
#[derive(Debug, Clone, Copy, PartialEq, Eq, Structural)]
pub enum BodyLayout {
    /// No request body.
    Absent,
    /// Object body: its properties are top-level arguments, and every top-level argument
    /// that no parameter claims is a field of the body.
    Hoisted,
    /// Any other body: carried under the single argument `body`.
    Wrapped,
}

/// Whether a schema describes an object.
pub open spec fn describes_object(schema: JsonView) -> bool {
    schema.text_at("type"@) == Some("object"@) || schema.get("properties"@) is Some
}

/// Whether a schema describes an object.
pub fn is_object_schema(schema: &Json) -> (r: bool)
    ensures
        r == describes_object(schema@),
{
    let typed = match schema.text_at("type") {
        Some(t) => same(t, "object"),
        None => false,
    };
    typed || schema.get("properties").is_some()
}

impl OperationPlanView {
    /// How the body maps onto the arguments.
    pub open spec fn layout(self) -> BodyLayout {
        match self.body {
            None => BodyLayout::Absent,
            Some(b) => if describes_object(b.schema) {
                BodyLayout::Hoisted
            } else {
                BodyLayout::Wrapped
            },
        }
    }

    /// The fields of an object body, with their schemas.
    pub open spec fn body_fields(self) -> Seq<(Seq<char>, JsonView)> {
        match (self.layout(), self.body) {
            (BodyLayout::Hoisted, Some(b)) => match b.schema.members_at("properties"@) {
                Some(es) => es,
                None => Seq::empty(),
            },
            _ => Seq::empty(),
        }
    }

    /// The argument names that the body takes.
    pub open spec fn body_names(self) -> Seq<Seq<char>> {
        if self.layout() == BodyLayout::Wrapped {
            seq!["body"@]
        } else {
            keys_of(self.body_fields())
        }
    }

    /// The argument names taken by the body and the first `n` parameters.
    pub open spec fn names_taken(self, n: int) -> Seq<Seq<char>>
        decreases n, 0int,
    {
        if n <= 0 {
            self.body_names()
        } else if self.params[n - 1].location == ParamLocation::Cookie {
            self.names_taken(n - 1)
        } else {
            self.names_taken(n - 1).push(self.key_at(n - 1))
        }
    }

    /// The argument name of parameter `i`: its own name, or that name behind its location
    /// where the own name is taken. A cookie has none.
    pub open spec fn key_at(self, i: int) -> Seq<char>
        decreases i, 1int,
    {
        let p = self.params[i];
        if p.location == ParamLocation::Cookie {
            Seq::empty()
        } else if i >= 0 && self.names_taken(i).contains(p.name) {
            location_prefix(p.location) + "_"@ + p.name
        } else {
            p.name
        }
    }

    /// The argument name of each parameter.
    pub open spec fn keys(self) -> Seq<Seq<char>> {
        Seq::new(self.params.len(), |i: int| self.key_at(i))
    }

    /// The properties that the body brings to the input schema.
    pub open spec fn body_properties(self) -> Seq<(Seq<char>, JsonView)> {
        match (self.layout(), self.body) {
            (BodyLayout::Wrapped, Some(b)) => seq![("body"@, b.schema)],
            _ => self.body_fields(),
        }
    }

    /// The arguments that the body requires.
    pub open spec fn body_required(self) -> Seq<Seq<char>> {
        match (self.layout(), self.body) {
            (BodyLayout::Hoisted, Some(b)) => match b.schema.items_at("required"@) {
                Some(items) => texts_in(items),
                None => Seq::empty(),
            },
            (BodyLayout::Wrapped, Some(b)) => if b.required {
                seq!["body"@]
            } else {
                Seq::empty()
            },
            _ => Seq::empty(),
        }
    }

    /// The properties of the body and of the first `n` parameters.
    pub open spec fn properties(self, n: int) -> Seq<(Seq<char>, JsonView)>
        decreases n,
    {
        if n <= 0 {
            self.body_properties()
        } else if self.key_at(n - 1).len() == 0 {
            self.properties(n - 1)
        } else {
            with_entry(
                self.properties(n - 1),
                self.key_at(n - 1),
                described(self.params[n - 1]),
            )
        }
    }

    /// The arguments that the body and the first `n` parameters require.
    pub open spec fn required(self, n: int) -> Seq<Seq<char>>
        decreases n,
    {
        if n <= 0 {
            self.body_required()
        } else if self.key_at(n - 1).len() == 0 || !self.params[n - 1].required {
            self.required(n - 1)
        } else {
            self.required(n - 1).push(self.key_at(n - 1))
        }
    }

    /// The input schema: an object with one property per body field and parameter.
    pub open spec fn input_schema(self) -> JsonView {
        let n = self.params.len() as int;
        let base = seq![
            ("type"@, JsonView::String("object"@)),
            ("properties"@, JsonView::Object(self.properties(n))),
        ];
        JsonView::Object(
            object_of(
                if self.required(n).len() == 0 {
                    base
                } else {
                    base.push(("required"@, strings(in_order(self.required(n)))))
                },
            ),
        )
    }
}

/// The schema of a parameter, with the parameter's description where it has none itself.
pub open spec fn described(p: ParamPlanView) -> JsonView {
    match (p.description, p.schema) {
        (Some(d), JsonView::Object(es)) => if lookup(es, "description"@) is None {
            JsonView::Object(with_entry(es, "description"@, JsonView::String(d)))
        } else {
            p.schema
        },
        _ => p.schema,
    }
}

/// The texts among `items`, in order.
pub open spec fn texts_in(items: Seq<JsonView>) -> Seq<Seq<char>>
    decreases items.len(),
{
    if items.len() == 0 {
        Seq::empty()
    } else {
        match items.last().text() {
            Some(t) => texts_in(items.drop_last()).push(t),
            None => texts_in(items.drop_last()),
        }
    }
}

/// The array of strings with the contents `names`.
pub open spec fn strings(names: Seq<Seq<char>>) -> JsonView {
    JsonView::Array(names.map_values(|s: Seq<char>| JsonView::String(s)))
}

/// The names as the keys of a map.
pub open spec fn as_keys(names: Seq<Seq<char>>) -> Seq<(Seq<char>, ())>
    decreases names.len(),
{
    if names.len() == 0 {
        Seq::empty()
    } else {
        with_entry(as_keys(names.drop_last()), names.last(), ())
    }
}

/// The names in order, each once.
pub open spec fn in_order(names: Seq<Seq<char>>) -> Seq<Seq<char>> {
    keys_of(as_keys(names))
}

/// The texts among `items`, in order.
pub fn list_texts(items: &Vec<Json>) -> (r: Vec<String>)
    ensures
        texts(r@) == texts_in(trees(items@)),
{
    let mut r: Vec<String> = Vec::new();
    let ghost all = trees(items@);
    assert(texts(r@) =~= texts_in(all.take(0)));
    for i in 0..items.len()
        invariant
            all == trees(items@),
            texts(r@) == texts_in(all.take(i as int)),
    {
        assert(all.take(i + 1).drop_last() =~= all.take(i as int));
        assert(all.take(i + 1).last() == items@[i as int]@);
        match items[i].as_str() {
            Some(t) => {
                let ghost done = r@;
                let s = t.to_owned();
                r.push(s);
                assert(texts(done.push(s)) =~= texts(done).push(s@));
            },
            None => {},
        }
    }
    assert(all.take(all.len() as int) =~= all);
    r
}

/// The array of strings with the contents `names`.
pub fn string_array(names: &Vec<String>) -> (r: Json)
    ensures
        r@ == strings(texts(names@)),
{
    let mut items: Vec<Json> = Vec::new();
    for i in 0..names.len()
        invariant
            items@.len() == i,
            forall|j: int| 0 <= j < i ==> (#[trigger] items@[j])@ == JsonView::String(names@[j]@),
    {
        items.push(Json::from_text(names[i].as_str()));
    }
    assert(trees(items@) =~= texts(names@).map_values(|s: Seq<char>| JsonView::String(s)));
    Json::from_items(items)
}

/// The names in order, each once.
pub fn sorted_names(names: &Vec<String>) -> (r: Vec<String>)
    ensures
        texts(r@) == in_order(texts(names@)),
{
    let mut set: TextMap<()> = TextMap::new();
    let ghost all = texts(names@);
    for i in 0..names.len()
        invariant
            all == texts(names@),
            set.entries() == as_keys(all.take(i as int)),
    {
        assert(all.take(i + 1).drop_last() =~= all.take(i as int));
        set.insert(names[i].clone(), ());
    }
    assert(all.take(all.len() as int) =~= all);
    set.keys()
}

impl OperationPlan {
    /// How the body maps onto the arguments.
    pub fn body_layout(&self) -> (r: BodyLayout)
        ensures
            r == self@.layout(),
    {
        match &self.body {
            None => BodyLayout::Absent,
            Some(b) => if is_object_schema(&b.schema) {
                BodyLayout::Hoisted
            } else {
                BodyLayout::Wrapped
            },
        }
    }

    /// The names of the fields of an object body.
    pub fn body_property_names(&self) -> (r: Vec<String>)
        ensures
            texts(r@) == keys_of(self@.body_fields()),
    {
        if let Some(body) = &self.body {
            if self.body_layout() == BodyLayout::Hoisted {
                if let Some(fields) = body.schema.members_at("properties") {
                    assert(keys_of(members(*fields)) =~= keys_of(fields.entries()));
                    return fields.keys();
                }
            }
        }
        let r: Vec<String> = Vec::new();
        assert(texts(r@) =~= keys_of(self@.body_fields()));
        r
    }

    /// The argument name of each parameter, in the order of the parameters.
    pub fn param_keys(&self) -> (r: Vec<String>)
        ensures
            texts(r@) == self@.keys(),
    {
        let mut used = self.body_property_names();
        if self.body_layout() == BodyLayout::Wrapped {
            assert(texts(used@).len() == 0);
            used.push("body".to_owned());
            assert(texts(used@) =~= seq!["body"@]);
        }
        let mut keys: Vec<String> = Vec::new();
        let ghost plan = self@;
        for i in 0..self.params.len()
            invariant
                plan == self@,
                texts(used@) == plan.names_taken(i as int),
                texts(keys@) == plan.keys().take(i as int),
        {
            let p = &self.params[i];
            assert(plan.params[i as int] == p@);
            let ghost done = keys@;
            let ghost taken = used@;
            let key = if p.location == ParamLocation::Cookie {
                String::new()
            } else {
                let key = if is_one_of(&used, &p.name) {
                    join3(p.location.prefix(), "_", p.name.as_str())
                } else {
                    p.name.clone()
                };
                used.push(key.clone());
                assert(texts(used@) =~= texts(taken).push(key@));
                key
            };
            assert(key@ =~= plan.key_at(i as int));
            keys.push(key);
            assert(texts(keys@) =~= texts(done).push(key@));
            assert(plan.keys().take(i + 1) =~= plan.keys().take(i as int).push(
                plan.keys()[i as int],
            ));
        }
        assert(plan.keys().take(plan.keys().len() as int) =~= plan.keys());
        keys
    }

    /// The input schema of the tool: the parameters and the fields of an object body side by
    /// side. Where two have one name the body field keeps it, and the parameter is named
    /// behind its location.
    pub fn input_schema(&self) -> (r: Json)
        ensures
            r@ == self@.input_schema(),
    {
        let ghost plan = self@;
        let mut properties = self.start_properties();
        let mut required = self.start_required();
        let keys = self.param_keys();
        let n = self.params.len();
        for i in 0..n
            invariant
                plan == self@,
                n == self.params@.len(),
                texts(keys@) == plan.keys(),
                members(properties) == plan.properties(i as int),
                texts(required@) == plan.required(i as int),
        {
            let p = &self.params[i];
            assert(plan.params[i as int] == p@);
            assert(texts(keys@).len() == n);
            assert(texts(keys@)[i as int] == plan.key_at(i as int));
            let key = &keys[i];
            if !key.as_str().is_empty() {
                put(&mut properties, key.as_str(), param_schema(p));
                if p.required {
                    let ghost done = required@;
                    required.push(key.clone());
                    assert(texts(required@) =~= texts(done).push(key@));
                }
            }
        }
        let shape = Json::from_members(properties);
        let kind = Json::from_text("object");
        if required.len() == 0 {
            let pairs: Vec<(&'static str, Json)> = vec![("type", kind), ("properties", shape)];
            assert(pair_trees(pairs@) =~= seq![
                ("type"@, JsonView::String("object"@)),
                ("properties"@, JsonView::Object(plan.properties(n as int))),
            ]);
            object(pairs)
        } else {
            let names = string_array(&sorted_names(&required));
            let pairs: Vec<(&'static str, Json)> = vec![
                ("type", kind),
                ("properties", shape),
                ("required", names),
            ];
            assert(pair_trees(pairs@) =~= seq![
                ("type"@, JsonView::String("object"@)),
                ("properties"@, JsonView::Object(plan.properties(n as int))),
            ].push(("required"@, strings(in_order(plan.required(n as int))))));
            object(pairs)
        }
    }

    /// The properties that the body brings to the input schema.
    fn start_properties(&self) -> (r: TextMap<Json>)
        ensures
            members(r) == self@.body_properties(),
    {
        if let Some(body) = &self.body {
            match self.body_layout() {
                BodyLayout::Hoisted => {
                    if let Some(fields) = body.schema.members_at("properties") {
                        return copy_members(fields);
                    }
                },
                _ => {
                    let mut r = no_members();
                    put(&mut r, "body", body.schema.clone());
                    return r;
                },
            }
        }
        no_members()
    }

    /// The arguments that the body requires.
    fn start_required(&self) -> (r: Vec<String>)
        ensures
            texts(r@) == self@.body_required(),
    {
        let mut r: Vec<String> = Vec::new();
        assert(texts(r@) =~= Seq::empty());
        if let Some(body) = &self.body {
            match self.body_layout() {
                BodyLayout::Hoisted => {
                    if let Some(items) = body.schema.items_at("required") {
                        return list_texts(items);
                    }
                },
                _ => {
                    if body.required {
                        r.push("body".to_owned());
                        assert(texts(r@) =~= seq!["body"@]);
                    }
                },
            }
        }
        r
    }
}

/// The schema of a parameter, with the parameter's description where it has none itself.
fn param_schema(p: &ParamPlan) -> (r: Json)
    ensures
        r@ == described(p@),
{
    if let (Some(description), Json::Object(m)) = (&p.description, &p.schema) {
        proof {
            tree_of_object(*m);
        }
        if p.schema.get("description").is_none() {
            let mut with = copy_members(m);
            put(&mut with, "description", Json::from_text(description.as_str()));
            return Json::from_members(with);
        }
    }
    p.schema.clone()
}

}
