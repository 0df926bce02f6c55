//! What the input schema of an operation holds, told from the parameters and the body alone: the
//! name of each argument, its schema, and which arguments are required.
use crate::json::JsonView;
use crate::laws::{input_schema_describes_object, names_in_order};
use crate::plan::{
    described, in_order, location_named, strings, texts_in, OperationPlanView, ParamLocation,
    ParamPlanView,
};
use crate::request_laws::rising;
use crate::text::before;
use crate::text_map::{lookup, lookup_with_entry};
use vstd::prelude::*;

verus! {

/// Whether a name belongs to the body: as a field of an object body, or as `body` for any other.
pub open spec fn names_body_part(plan: OperationPlanView, q: Seq<char>) -> bool {
    match plan.body {
        None => false,
        Some(b) => if b.schema.text_at("type"@) == Some("object"@) || b.schema.get(
            "properties"@,
        ) is Some {
            b.schema.get("properties"@) matches Some(JsonView::Object(es)) && exists|k: int|
                0 <= k < es.len() && (#[trigger] es[k]).0 == q
        } else {
            q == "body"@
        },
    }
}

/// Whether one of the first `n` parameters takes the argument `q`.
pub open spec fn taken_before(plan: OperationPlanView, q: Seq<char>, n: int) -> bool {
    exists|j: int|
        0 <= j < n && plan.params[j].location != ParamLocation::Cookie && #[trigger] plan.key_at(j)
            == q
}

/// The names that are taken are those of the body and those of the parameters before.
proof fn taken_names(plan: OperationPlanView, q: Seq<char>, n: int)
    requires
        0 <= n <= plan.params.len(),
    ensures
        plan.names_taken(n).contains(q) <==> names_body_part(plan, q) || taken_before(plan, q, n),
    decreases n,
{
    let all = plan.names_taken(n);
    if n == 0 {
        let fields = plan.body_fields();
        if all.contains(q) {
            let i = choose|i: int| 0 <= i < all.len() && all[i] == q;
            if plan.body is Some && !(plan.layout() is Wrapped) {
                assert(fields[i].0 == q);
            }
        }
        if names_body_part(plan, q) {
            if plan.layout() is Wrapped {
                assert(all[0] == q);
            } else {
                let k = choose|k: int| 0 <= k < fields.len() && (#[trigger] fields[k]).0 == q;
                assert(all[k] == q);
            }
        }
    } else {
        taken_names(plan, q, n - 1);
        let done = plan.names_taken(n - 1);
        if plan.params[n - 1].location != ParamLocation::Cookie {
            if done.contains(q) {
                let i = choose|i: int| 0 <= i < done.len() && done[i] == q;
                assert(all[i] == q);
            }
            if plan.key_at(n - 1) == q {
                assert(all[all.len() - 1] == q);
            }
            if all.contains(q) {
                let i = choose|i: int| 0 <= i < all.len() && all[i] == q;
                if i < done.len() {
                    assert(done[i] == q);
                } else {
                    assert(plan.key_at(n - 1) == q);
                }
            }
        }
        if taken_before(plan, q, n) {
            let j = choose|j: int|
                0 <= j < n && plan.params[j].location != ParamLocation::Cookie
                    && #[trigger] plan.key_at(j) == q;
            if j < n - 1 {
                assert(plan.key_at(j) == q);
            }
        }
        if taken_before(plan, q, n - 1) {
            let j = choose|j: int|
                0 <= j < n - 1 && plan.params[j].location != ParamLocation::Cookie
                    && #[trigger] plan.key_at(j) == q;
            assert(plan.key_at(j) == q);
        }
    }
}

/// A parameter takes the argument of its own name, unless the body or a parameter before it has
/// that name: then the argument is named after the location, an underscore and the name. A cookie
/// takes no argument.
pub proof fn argument_is_named_after_parameter(plan: OperationPlanView, i: int)
    requires
        0 <= i < plan.params.len(),
    ensures
        ({
            let p = plan.params[i];
            let other = names_body_part(plan, p.name) || taken_before(plan, p.name, i);
            &&& p.location == ParamLocation::Cookie ==> plan.key_at(i).len() == 0
            &&& p.location != ParamLocation::Cookie && !other ==> plan.key_at(i) == p.name
            &&& p.location == ParamLocation::Path && other ==> plan.key_at(i) == seq![
                'p',
                'a',
                't',
                'h',
                '_',
            ] + p.name
            &&& p.location == ParamLocation::Query && other ==> plan.key_at(i) == seq![
                'q',
                'u',
                'e',
                'r',
                'y',
                '_',
            ] + p.name
            &&& p.location == ParamLocation::Header && other ==> plan.key_at(i) == seq![
                'h',
                'e',
                'a',
                'd',
                'e',
                'r',
                '_',
            ] + p.name
        }),
{
    let p = plan.params[i];
    taken_names(plan, p.name, i);
    reveal_strlit("path");
    reveal_strlit("query");
    reveal_strlit("header");
    reveal_strlit("_");
    assert("path"@ + "_"@ + p.name =~= seq!['p', 'a', 't', 'h', '_'] + p.name);
    assert("query"@ + "_"@ + p.name =~= seq!['q', 'u', 'e', 'r', 'y', '_'] + p.name);
    assert("header"@ + "_"@ + p.name =~= seq!['h', 'e', 'a', 'd', 'e', 'r', '_'] + p.name);
}

/// A parameter is sent where its `in` says: `path`, `header` and `cookie` by name, and anything
/// else in the query.
pub proof fn location_is_what_in_says(s: Seq<char>)
    ensures
        location_named(s) == ParamLocation::Path <==> s == seq!['p', 'a', 't', 'h'],
        location_named(s) == ParamLocation::Header <==> s == seq!['h', 'e', 'a', 'd', 'e', 'r'],
        location_named(s) == ParamLocation::Cookie <==> s == seq!['c', 'o', 'o', 'k', 'i', 'e'],
{
    reveal_strlit("path");
    reveal_strlit("header");
    reveal_strlit("cookie");
    assert("path"@ =~= seq!['p', 'a', 't', 'h']);
    assert("header"@ =~= seq!['h', 'e', 'a', 'd', 'e', 'r']);
    assert("cookie"@ =~= seq!['c', 'o', 'o', 'k', 'i', 'e']);
    assert("header"@[0] != "cookie"@[0]);
}

/// A text is among the texts of a list exactly where the list holds it as a string.
pub proof fn listed_texts_are_the_strings(items: Seq<JsonView>, q: Seq<char>)
    ensures
        texts_in(items).contains(q) <==> items.contains(JsonView::String(q)),
    decreases items.len(),
{
    if items.len() > 0 {
        let init = items.drop_last();
        let done = texts_in(init);
        let all = texts_in(items);
        listed_texts_are_the_strings(init, q);
        if items.contains(JsonView::String(q)) {
            let i = choose|i: int| 0 <= i < items.len() && items[i] == JsonView::String(q);
            if i < init.len() {
                assert(init[i] == JsonView::String(q));
                let k = choose|k: int| 0 <= k < done.len() && done[k] == q;
                assert(all[k] == q);
            } else {
                assert(items.last() == JsonView::String(q));
                assert(all[all.len() - 1] == q);
            }
        }
        if all.contains(q) {
            let k = choose|k: int| 0 <= k < all.len() && all[k] == q;
            if k < done.len() {
                assert(done[k] == q);
                let i = choose|i: int| 0 <= i < init.len() && init[i] == JsonView::String(q);
                assert(items[i] == JsonView::String(q));
            } else {
                assert(items[items.len() - 1] == JsonView::String(q));
            }
        }
    }
}

/// The texts of a list are its strings, in their order: none is left out, none is added.
pub proof fn listed_texts_keep_their_order(items: Seq<JsonView>) -> (ix: Seq<int>)
    ensures
        rising(ix, items.len() as int),
        texts_in(items).len() == ix.len(),
        forall|k: int|
            0 <= k < ix.len() ==> items[#[trigger] ix[k]] == JsonView::String(texts_in(items)[k]),
        forall|i: int| 0 <= i < items.len() && (#[trigger] items[i]) is String ==> ix.contains(i),
    decreases items.len(),
{
    if items.len() == 0 {
        Seq::empty()
    } else {
        let init = items.drop_last();
        let n = items.len() - 1;
        let done = listed_texts_keep_their_order(init);
        let ix = if items.last() is String {
            done.push(n)
        } else {
            done
        };
        assert forall|k: int| 0 <= k < ix.len() implies items[#[trigger] ix[k]]
            == JsonView::String(texts_in(items)[k]) by {
            if k < done.len() {
                assert(ix[k] == done[k]);
                assert(init[done[k]] == items[done[k]]);
                assert(texts_in(items)[k] == texts_in(init)[k]);
            }
        }
        assert forall|i: int|
            0 <= i < items.len() && (#[trigger] items[i]) is String implies ix.contains(i) by {
            if i < n {
                assert(init[i] == items[i]);
                let k = choose|k: int| 0 <= k < done.len() && done[k] == i;
                assert(ix[k] == i);
            } else {
                assert(ix[ix.len() - 1] == i);
            }
        }
        ix
    }
}

/// Whether the body demands the argument `q`: an object body each name in its `required`, any
/// other body the argument `body` where the body itself is required.
pub open spec fn body_demands(plan: OperationPlanView, q: Seq<char>) -> bool {
    match plan.body {
        None => false,
        Some(b) => if b.schema.text_at("type"@) == Some("object"@) || b.schema.get(
            "properties"@,
        ) is Some {
            b.schema.get("required"@) matches Some(JsonView::Array(items)) && items.contains(
                JsonView::String(q),
            )
        } else {
            b.required && q == "body"@
        },
    }
}

/// Whether one of the first `n` parameters is required and takes the argument `q`.
pub open spec fn parameter_demands(plan: OperationPlanView, q: Seq<char>, n: int) -> bool {
    exists|i: int|
        0 <= i < n && plan.params[i].required && q.len() > 0 && #[trigger] plan.key_at(i) == q
}

/// What is required is what the body or a parameter demands.
proof fn demanded_is_required(plan: OperationPlanView, q: Seq<char>, n: int)
    requires
        0 <= n <= plan.params.len(),
    ensures
        plan.required(n).contains(q) <==> body_demands(plan, q) || parameter_demands(plan, q, n),
    decreases n,
{
    let all = plan.required(n);
    if n == 0 {
        if let Some(b) = plan.body {
            if plan.layout() is Wrapped {
                if body_demands(plan, q) {
                    assert(all[0] == q);
                }
            } else if let Some(items) = b.schema.items_at("required"@) {
                listed_texts_are_the_strings(items, q);
            }
        }
    } else {
        demanded_is_required(plan, q, n - 1);
        let done = plan.required(n - 1);
        if plan.key_at(n - 1).len() > 0 && plan.params[n - 1].required {
            if done.contains(q) {
                let i = choose|i: int| 0 <= i < done.len() && done[i] == q;
                assert(all[i] == q);
            }
            if plan.key_at(n - 1) == q {
                assert(all[all.len() - 1] == q);
            }
            if all.contains(q) {
                let i = choose|i: int| 0 <= i < all.len() && all[i] == q;
                if i < done.len() {
                    assert(done[i] == q);
                } else {
                    assert(plan.key_at(n - 1) == q);
                }
            }
        }
        if parameter_demands(plan, q, n) {
            let i = choose|i: int|
                0 <= i < n && plan.params[i].required && q.len() > 0 && #[trigger] plan.key_at(i)
                    == q;
            if i < n - 1 {
                assert(plan.key_at(i) == q);
            }
        }
        if parameter_demands(plan, q, n - 1) {
            let i = choose|i: int|
                0 <= i < n - 1 && plan.params[i].required && q.len() > 0
                    && #[trigger] plan.key_at(i) == q;
            assert(plan.key_at(i) == q);
        }
    }
}

/// The input schema requires an argument exactly where the body or a parameter demands it. It
/// lists what it requires in ascending order, each name once, and says nothing where nothing is
/// required.
pub proof fn required_arguments_are_the_demanded(plan: OperationPlanView)
    ensures
        ({
            let n = plan.params.len() as int;
            match plan.input_schema().get("required"@) {
                None => forall|q: Seq<char>|
                    !(#[trigger] body_demands(plan, q)) && !parameter_demands(plan, q, n),
                Some(JsonView::Array(names)) => {
                    &&& names.len() > 0
                    &&& forall|k: int| 0 <= k < names.len() ==> (#[trigger] names[k]) is String
                    &&& forall|q: Seq<char>| #[trigger]
                        names.contains(JsonView::String(q)) <==> body_demands(plan, q)
                            || parameter_demands(plan, q, n)
                    &&& forall|j: int, k: int|
                        0 <= j < k < names.len() ==> before(
                            (#[trigger] names[j])->String_0,
                            (#[trigger] names[k])->String_0,
                        )
                },
                _ => false,
            }
        }),
{
    let n = plan.params.len() as int;
    input_schema_describes_object(plan);
    let listed = plan.required(n);
    let sorted = in_order(listed);
    names_in_order(listed);
    if listed.len() == 0 {
        assert forall|q: Seq<char>|
            !(#[trigger] body_demands(plan, q)) && !parameter_demands(plan, q, n) by {
            demanded_is_required(plan, q, n);
        }
    } else {
        let names = strings(sorted)->Array_0;
        assert(sorted.contains(listed[0])) by {
            assert(listed.contains(listed[0]));
        }
        assert forall|q: Seq<char>| #[trigger]
            names.contains(JsonView::String(q)) <==> body_demands(plan, q) || parameter_demands(
                plan,
                q,
                n,
            ) by {
            demanded_is_required(plan, q, n);
            assert(sorted.contains(q) <==> listed.contains(q));
            if sorted.contains(q) {
                let k = choose|k: int| 0 <= k < sorted.len() && sorted[k] == q;
                assert(names[k] == JsonView::String(q));
            }
            if names.contains(JsonView::String(q)) {
                let k = choose|k: int| 0 <= k < names.len() && names[k] == JsonView::String(q);
                assert(sorted[k] == q);
            }
        }
        assert forall|j: int, k: int| 0 <= j < k < names.len() implies before(
            (#[trigger] names[j])->String_0,
            (#[trigger] names[k])->String_0,
        ) by {
            assert(names[j] == JsonView::String(sorted[j]));
            assert(names[k] == JsonView::String(sorted[k]));
        }
    }
}

/// Every name that an object body requires is required by the input schema, and every name that
/// the input schema requires is one of those or the argument of a required parameter.
pub proof fn required_body_fields_are_required(
    plan: OperationPlanView,
    items: Seq<JsonView>,
    q: Seq<char>,
)
    requires
        plan.body is Some,
        plan.body->Some_0.schema.text_at("type"@) == Some("object"@)
            || plan.body->Some_0.schema.get("properties"@) is Some,
        plan.body->Some_0.schema.get("required"@) == Some(JsonView::Array(items)),
    ensures
        items.contains(JsonView::String(q)) ==> plan.input_schema().get("required"@) is Some
            && plan.input_schema().get("required"@)->Some_0 is Array
            && plan.input_schema().get("required"@)->Some_0->Array_0.contains(JsonView::String(q)),
        plan.input_schema().get("required"@) matches Some(JsonView::Array(names))
            && names.contains(JsonView::String(q)) ==> items.contains(JsonView::String(q)) || exists|
            i: int,
        |
            0 <= i < plan.params.len() && plan.params[i].required && plan.params[i].location
                != ParamLocation::Cookie && #[trigger] plan.key_at(i) == q,
{
    let n = plan.params.len() as int;
    required_arguments_are_the_demanded(plan);
    assert(body_demands(plan, q) <==> items.contains(JsonView::String(q)));
    if parameter_demands(plan, q, n) {
        let i = choose|i: int|
            0 <= i < n && plan.params[i].required && q.len() > 0 && #[trigger] plan.key_at(i) == q;
        assert(plan.key_at(i) == q);
    }
}

/// What the body offers under `q`: the schema of a field, or the whole body under `body`.
pub open spec fn body_offers(plan: OperationPlanView, q: Seq<char>) -> Option<JsonView> {
    match plan.body {
        None => None,
        Some(b) => if b.schema.text_at("type"@) == Some("object"@) || b.schema.get(
            "properties"@,
        ) is Some {
            match b.schema.get("properties"@) {
                Some(JsonView::Object(es)) => lookup(es, q),
                _ => None,
            }
        } else if q == "body"@ {
            Some(b.schema)
        } else {
            None
        },
    }
}

/// What is found among the properties that the body brings is what it offers.
proof fn body_property_is_offered(plan: OperationPlanView, q: Seq<char>)
    ensures
        lookup(plan.body_properties(), q) == body_offers(plan, q),
{
    let ps = plan.body_properties();
    if let Some(b) = plan.body {
        if plan.layout() is Wrapped {
            assert(ps.len() == 1 && ps[0] == ("body"@, b.schema));
            let rest = ps.skip(1);
            assert(rest.len() == 0);
            assert(lookup(rest, q) is None);
        }
    }
}

/// A name that none of the first `n` parameters takes holds what the body offers.
proof fn property_of_the_body(plan: OperationPlanView, q: Seq<char>, n: int)
    requires
        0 <= n <= plan.params.len(),
        forall|i: int| 0 <= i < n ==> #[trigger] plan.key_at(i) != q,
    ensures
        lookup(plan.properties(n), q) == body_offers(plan, q),
    decreases n,
{
    if n == 0 {
        body_property_is_offered(plan, q);
    } else {
        property_of_the_body(plan, q, n - 1);
        let key = plan.key_at(n - 1);
        lookup_with_entry(plan.properties(n - 1), key, described(plan.params[n - 1]), q);
    }
}

/// A name that parameter `i` takes, and none of the first `n` behind it, holds the schema of that
/// parameter.
proof fn property_of_parameter(plan: OperationPlanView, q: Seq<char>, n: int, i: int)
    requires
        0 <= i < n <= plan.params.len(),
        q.len() > 0,
        plan.key_at(i) == q,
        forall|j: int| i < j < n ==> #[trigger] plan.key_at(j) != q,
    ensures
        lookup(plan.properties(n), q) == Some(described(plan.params[i])),
    decreases n,
{
    let key = plan.key_at(n - 1);
    lookup_with_entry(plan.properties(n - 1), key, described(plan.params[n - 1]), q);
    if i < n - 1 {
        property_of_parameter(plan, q, n - 1, i);
    }
}

/// The input schema describes an object whose properties are the arguments: each parameter's
/// schema under the name of its argument, and what the body offers under every other name.
pub proof fn properties_are_the_arguments(plan: OperationPlanView, q: Seq<char>)
    requires
        q.len() > 0,
    ensures
        plan.input_schema().get("type"@) == Some(JsonView::String("object"@)),
        plan.input_schema().get("properties"@) is Some,
        plan.input_schema().get("properties"@)->Some_0 is Object,
        ({
            let n = plan.params.len() as int;
            let property = plan.input_schema().get("properties"@)->Some_0.get(q);
            &&& (forall|i: int| 0 <= i < n ==> #[trigger] plan.key_at(i) != q) ==> property
                == body_offers(plan, q)
            &&& forall|i: int|
                0 <= i < n && #[trigger] plan.key_at(i) == q && (forall|j: int|
                    i < j < n ==> #[trigger] plan.key_at(j) != q) ==> property == Some(
                    described(plan.params[i]),
                )
        }),
{
    input_schema_describes_object(plan);
    let n = plan.params.len() as int;
    if forall|i: int| 0 <= i < n ==> #[trigger] plan.key_at(i) != q {
        property_of_the_body(plan, q, n);
    }
    assert forall|i: int|
        0 <= i < n && #[trigger] plan.key_at(i) == q && (forall|j: int|
            i < j < n ==> #[trigger] plan.key_at(j) != q) implies lookup(plan.properties(n), q)
        == Some(described(plan.params[i])) by {
        property_of_parameter(plan, q, n, i);
    }
}

/// The schema of an argument is the parameter's own. The parameter's description joins it where
/// the schema is an object without one, and nothing else of the schema changes.
pub proof fn description_is_only_filled_in(p: ParamPlanView, q: Seq<char>)
    ensures
        p.description is None || !(p.schema is Object) || p.schema.get("description"@) is Some
            ==> described(p) == p.schema,
        p.description is Some && p.schema is Object && p.schema.get("description"@) is None ==> ({
            &&& described(p) is Object
            &&& described(p).get("description"@) == Some(JsonView::String(p.description->Some_0))
            &&& q != "description"@ ==> described(p).get(q) == p.schema.get(q)
        }),
{
    if let (Some(d), JsonView::Object(es)) = (p.description, p.schema) {
        lookup_with_entry(es, "description"@, JsonView::String(d), q);
        lookup_with_entry(es, "description"@, JsonView::String(d), "description"@);
    }
}

}
