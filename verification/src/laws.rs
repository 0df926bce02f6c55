//! What holds of the plugin as a whole: how schemas, requests, credentials, capabilities and
//! answers relate to each other and to the document.
use crate::call::call_prepared;
use crate::capability::{
    admitted, capabilities_for, exposed, source_expanded, sources_expanded, CapabilitySetView,
};
use crate::codec::{json_read, number_of, yaml_read};
use crate::config::{shares, ExposeConfig, FilterConfig};
use crate::credentials::{
    asked, auth_resolved, base64_text, headers_merged, headers_resolved, names_bearing,
    secrets_for, tokens_in, uris_needed, with_replaced, Credited,
};
use crate::document::{
    auth_names, derefed, document_in, document_operations, followed, inlined, inlined_member,
    inlined_members, keys_declared, listed_operations_have_plans, param_key, param_planned, params_planned, plan_of,
    planned_operations_are_listed, resolved, SecuritySchemeView, MAX_REF_DEPTH,
};
use crate::envelope::{
    answer, asks_for_resource, content_members, document_received, envelope, envelope_members,
    request_report, response_members, response_report, status_failure, transport_failure,
};
use crate::error::BackendErrorView;
use crate::exchange::{kept, HttpOutcomeView};
use crate::json::{object_of, JsonView};
use crate::operation::OperationMetaView;
use crate::plan::{
    as_keys, described, in_order, location_prefix, strings, BodyLayout, OperationPlanView,
    ParamLocation,
};
use crate::plugin::{PluginView, ProfileView};
use crate::request::{
    dots_only, percent_encoded, rendered, segment_byte, unreserved, PreparedRequestView,
};
use crate::source::SourceView;
use crate::text::{
    before, before_is_total, decimal, has_part, occurrences, replace_all, texts,
};
use crate::text_map::{
    ascending, lookup, lookup_finds_entry, lookup_in_mapped, lookup_with_entry, mapped, with_entry,
    with_entry_adds_one, with_entry_keeps_order,
};
use vstd::prelude::*;
use vstd::utf8::encode_utf8;

verus! {

// Maps and lists of names.

/// Where a key has an entry, it is found.
pub proof fn entry_is_found<T>(es: Seq<(Seq<char>, T)>, i: int)
    requires
        0 <= i < es.len(),
    ensures
        lookup(es, es[i].0) is Some,
{
    lookup_finds_entry(es, es[i].0);
}

/// In a map every entry is what its key holds.
pub proof fn entry_holds_its_value<T>(es: Seq<(Seq<char>, T)>, i: int)
    requires
        ascending(es),
        0 <= i < es.len(),
    ensures
        lookup(es, es[i].0) == Some(es[i].1),
{
    lookup_finds_entry(es, es[i].0);
    let v = lookup(es, es[i].0)->Some_0;
    let j = choose|j: int| 0 <= j < es.len() && #[trigger] es[j] == (es[i].0, v);
    before_is_total(es[i].0, es[i].0);
    if i < j {
        assert(before(es[i].0, es[j].0));
    } else if j < i {
        assert(before(es[j].0, es[i].0));
    }
}

/// A name is a key exactly where it is one of the names.
proof fn as_keys_holds_names(names: Seq<Seq<char>>, q: Seq<char>)
    ensures
        lookup(as_keys(names), q) is Some <==> names.contains(q),
        ascending(as_keys(names)),
    decreases names.len(),
{
    if names.len() > 0 {
        let init = names.drop_last();
        as_keys_holds_names(init, q);
        lookup_with_entry(as_keys(init), names.last(), (), q);
        with_entry_keeps_order(as_keys(init), names.last(), ());
        if names.contains(q) {
            let i = choose|i: int| 0 <= i < names.len() && names[i] == q;
            if i < init.len() {
                assert(init[i] == q);
            }
        }
        if init.contains(q) {
            let i = choose|i: int| 0 <= i < init.len() && init[i] == q;
            assert(names[i] == q);
        }
        assert(names[names.len() - 1] == names.last());
    }
}

/// Names that are put in order are the same names, in ascending order and each once.
pub proof fn names_in_order(names: Seq<Seq<char>>)
    ensures
        forall|q: Seq<char>| in_order(names).contains(q) <==> names.contains(q),
        forall|i: int, j: int|
            0 <= i < j < in_order(names).len() ==> before(
                #[trigger] in_order(names)[i],
                #[trigger] in_order(names)[j],
            ),
{
    let es = as_keys(names);
    let ks = in_order(names);
    assert forall|q: Seq<char>| ks.contains(q) <==> names.contains(q) by {
        as_keys_holds_names(names, q);
        lookup_finds_entry(es, q);
        if ks.contains(q) {
            let i = choose|i: int| 0 <= i < ks.len() && ks[i] == q;
            assert(es[i].0 == q);
        }
        if names.contains(q) {
            let v = lookup(es, q)->Some_0;
            let i = choose|i: int| 0 <= i < es.len() && #[trigger] es[i] == (q, v);
            assert(ks[i] == q);
        }
    }
    as_keys_holds_names(names, Seq::empty());
    assert forall|i: int, j: int| 0 <= i < j < ks.len() implies before(
        #[trigger] ks[i],
        #[trigger] ks[j],
    ) by {
        assert(ks[i] == es[i].0 && ks[j] == es[j].0);
    }
}

/// An object made of pairs holds under each name what the last pair of that name says.
pub proof fn object_holds_last(pairs: Seq<(Seq<char>, JsonView)>, i: int)
    requires
        0 <= i < pairs.len(),
        forall|j: int| i < j < pairs.len() ==> (#[trigger] pairs[j]).0 != pairs[i].0,
    ensures
        lookup(object_of(pairs), pairs[i].0) == Some(pairs[i].1),
    decreases pairs.len(),
{
    let init = pairs.drop_last();
    lookup_with_entry(object_of(init), pairs.last().0, pairs.last().1, pairs[i].0);
    if i < pairs.len() - 1 {
        assert(init[i] == pairs[i]);
        assert(pairs[pairs.len() - 1] == pairs.last());
        object_holds_last(init, i);
    }
}

/// An object made of pairs holds nothing under a name that none of them has.
pub proof fn object_holds_no_more(pairs: Seq<(Seq<char>, JsonView)>, q: Seq<char>)
    requires
        forall|j: int| 0 <= j < pairs.len() ==> (#[trigger] pairs[j]).0 != q,
    ensures
        lookup(object_of(pairs), q) is None,
    decreases pairs.len(),
{
    if pairs.len() > 0 {
        let init = pairs.drop_last();
        lookup_with_entry(object_of(init), pairs.last().0, pairs.last().1, q);
        assert(pairs[pairs.len() - 1] == pairs.last());
        object_holds_no_more(init, q);
    }
}

// The input schema.

impl OperationPlanView {
    /// The name that parameter `i` gets where its own is taken.
    pub open spec fn prefixed(self, i: int) -> Seq<char> {
        location_prefix(self.params[i].location) + "_"@ + self.params[i].name
    }
}

/// More parameters take more names.
proof fn names_taken_grow(plan: OperationPlanView, m: int, n: int, q: Seq<char>)
    requires
        m <= n,
        plan.names_taken(m).contains(q),
    ensures
        plan.names_taken(n).contains(q),
    decreases n - m,
{
    if m < n {
        names_taken_grow(plan, m, n - 1, q);
        if n > 0 && plan.params[n - 1].location != ParamLocation::Cookie {
            let done = plan.names_taken(n - 1);
            let i = choose|i: int| 0 <= i < done.len() && done[i] == q;
            assert(plan.names_taken(n)[i] == q);
        }
    }
}

/// On a collision with a field of the body, the body keeps the bare name and the parameter is
/// prefixed with its location.
pub proof fn collision_prefixes_the_parameter(plan: OperationPlanView, i: int)
    requires
        0 <= i < plan.params.len(),
        plan.params[i].location != ParamLocation::Cookie,
        plan.body_names().contains(plan.params[i].name),
    ensures
        plan.key_at(i) == plan.prefixed(i),
{
    names_taken_grow(plan, 0, i, plan.params[i].name);
}

/// A parameter whose name neither the body nor an earlier parameter has keeps its name.
pub proof fn free_name_is_kept(plan: OperationPlanView, i: int)
    requires
        0 <= i < plan.params.len(),
        plan.params[i].location != ParamLocation::Cookie,
        !plan.names_taken(i).contains(plan.params[i].name),
    ensures
        plan.key_at(i) == plan.params[i].name,
{
}

/// A cookie takes no argument: it has no name, no property, and nothing is sent for it.
pub proof fn cookie_is_left_out(plan: OperationPlanView, args: JsonView, i: int)
    requires
        0 <= i < plan.params.len(),
        plan.params[i].location == ParamLocation::Cookie,
    ensures
        plan.key_at(i).len() == 0,
        plan.properties(i + 1) == plan.properties(i),
        plan.required(i + 1) == plan.required(i),
        plan.argument(args, i) is None,
{
}

/// A field of the body stands in the input schema under its own name, with its own schema,
/// unless the prefixed name of a parameter is that very name.
pub proof fn body_field_keeps_its_name(plan: OperationPlanView, q: Seq<char>, n: int)
    requires
        0 <= n <= plan.params.len(),
        plan.body_names().contains(q),
        forall|i: int| 0 <= i < n ==> #[trigger] plan.prefixed(i) != q,
    ensures
        lookup(plan.properties(n), q) == lookup(plan.body_properties(), q),
    decreases n,
{
    if n > 0 {
        body_field_keeps_its_name(plan, q, n - 1);
        assert(plan.prefixed(n - 1) != q);
        let key = plan.key_at(n - 1);
        if plan.params[n - 1].location != ParamLocation::Cookie && key == q {
            names_taken_grow(plan, 0, n - 1, q);
        }
        if key.len() > 0 {
            lookup_with_entry(
                plan.properties(n - 1),
                key,
                described(plan.params[n - 1]),
                q,
            );
        }
    }
}

/// Every parameter that takes an argument has a property in the input schema; where no later
/// parameter has its name, that property is its own schema.
pub proof fn parameter_has_property(plan: OperationPlanView, i: int, n: int)
    requires
        0 <= i < n <= plan.params.len(),
        plan.key_at(i).len() > 0,
    ensures
        lookup(plan.properties(n), plan.key_at(i)) is Some,
        (forall|j: int| i < j < n ==> #[trigger] plan.key_at(j) != plan.key_at(i)) ==> lookup(
            plan.properties(n),
            plan.key_at(i),
        ) == Some(described(plan.params[i])),
    decreases n,
{
    let last = plan.key_at(n - 1);
    if last.len() > 0 {
        lookup_with_entry(
            plan.properties(n - 1),
            last,
            described(plan.params[n - 1]),
            plan.key_at(i),
        );
    }
    if i < n - 1 {
        parameter_has_property(plan, i, n - 1);
    }
}

/// The input schema of every operation is an object schema, whose properties are those of the
/// body and of the parameters.
pub proof fn input_schema_describes_object(plan: OperationPlanView)
    ensures
        plan.input_schema().text_at("type"@) == Some("object"@),
        plan.input_schema().members_at("properties"@) == Some(
            plan.properties(plan.params.len() as int),
        ),
        plan.required(plan.params.len() as int).len() == 0 ==> plan.input_schema().get(
            "required"@,
        ) is None,
        plan.required(plan.params.len() as int).len() > 0 ==> plan.input_schema().get("required"@)
            == Some(
            strings(in_order(plan.required(plan.params.len() as int))),
        ),
{
    reveal_strlit("type");
    reveal_strlit("properties");
    reveal_strlit("required");
    assert("type"@.len() != "properties"@.len());
    assert("type"@.len() != "required"@.len());
    assert("properties"@.len() != "required"@.len());
    let n = plan.params.len() as int;
    let base = seq![
        ("type"@, JsonView::String("object"@)),
        ("properties"@, JsonView::Object(plan.properties(n))),
    ];
    let full = base.push(("required"@, strings(in_order(plan.required(n)))));
    object_holds_last(base, 0);
    object_holds_last(base, 1);
    object_holds_no_more(base, "required"@);
    object_holds_last(full, 0);
    object_holds_last(full, 1);
    object_holds_last(full, 2);
}

/// A parameter that is required and takes an argument is required by the input schema.
pub proof fn required_parameter_is_required(plan: OperationPlanView, i: int, n: int)
    requires
        0 <= i < n <= plan.params.len(),
        plan.params[i].required,
        plan.key_at(i).len() > 0,
    ensures
        plan.required(n).contains(plan.key_at(i)),
    decreases n,
{
    let all = plan.required(n);
    if i == n - 1 {
        assert(all[all.len() - 1] == plan.key_at(i));
    } else {
        required_parameter_is_required(plan, i, n - 1);
        let done = plan.required(n - 1);
        let j = choose|j: int| 0 <= j < done.len() && done[j] == plan.key_at(i);
        assert(all[j] == plan.key_at(i));
    }
}

// The request.

/// An argument for a query or header parameter is sent under the parameter's own name, whatever
/// name it has among the arguments.
pub proof fn argument_is_sent(
    plan: OperationPlanView,
    args: JsonView,
    i: int,
    n: int,
    location: ParamLocation,
)
    requires
        0 <= i < n <= plan.params.len(),
        plan.argument(args, i) is Some,
        plan.params[i].location == location,
    ensures
        plan.pairs_sent(args, n, location).contains(
            (plan.params[i].name, rendered(plan.argument(args, i)->Some_0)),
        ),
    decreases n,
{
    let all = plan.pairs_sent(args, n, location);
    let pair = (plan.params[i].name, rendered(plan.argument(args, i)->Some_0));
    if i == n - 1 {
        assert(all[all.len() - 1] == pair);
    } else {
        argument_is_sent(plan, args, i, n - 1, location);
        let done = plan.pairs_sent(args, n - 1, location);
        let j = choose|j: int| 0 <= j < done.len() && done[j] == pair;
        assert(all[j] == pair);
    }
}

/// The parameter whose argument is refused, if any, is the first in the path whose argument
/// consists of dots alone.
proof fn refusal_is_first(plan: OperationPlanView, args: JsonView, i: int)
    requires
        0 <= i <= plan.params.len(),
    ensures
        match plan.refused_from(args, i) {
            Some(k) => i <= k < plan.params.len() && plan.sent(args, k, ParamLocation::Path) is Some
                && dots_only(plan.sent(args, k, ParamLocation::Path)->Some_0),
            None => forall|k: int|
                i <= k < plan.params.len() && (#[trigger] plan.sent(args, k, ParamLocation::Path)) is Some
                    ==> !dots_only(plan.sent(args, k, ParamLocation::Path)->Some_0),
        },
    decreases plan.params.len() - i,
{
    if i < plan.params.len() {
        refusal_is_first(plan, args, i + 1);
        if plan.refused_from(args, i) is None {
            assert forall|k: int|
                i <= k < plan.params.len() && (#[trigger] plan.sent(args, k, ParamLocation::Path)) is Some
                implies !dots_only(plan.sent(args, k, ParamLocation::Path)->Some_0) by {
                if k > i {
                    assert(i + 1 <= k);
                }
            }
        }
    }
}

/// Arguments are refused exactly where one for a path parameter consists of dots alone.
pub proof fn only_dots_are_refused(plan: OperationPlanView, args: JsonView)
    ensures
        plan.request(args) is Err <==> exists|k: int|
            0 <= k < plan.params.len() && (#[trigger] plan.sent(args, k, ParamLocation::Path)) is Some
                && dots_only(plan.sent(args, k, ParamLocation::Path)->Some_0),
{
    refusal_is_first(plan, args, 0);
}

/// A percent-encoded text holds unreserved characters and escapes alone. So it has no `/`, `?`
/// or `#`, and no brace that could be taken for a placeholder.
pub proof fn encoded_text_has_no_separator(bytes: Seq<u8>, i: int)
    requires
        0 <= i < percent_encoded(bytes).len(),
    ensures
        ({
            let c = percent_encoded(bytes)[i];
            c == '%' || (c as u32 <= 126 && unreserved(c as u8))
        }),
        percent_encoded(bytes)[i] != '/',
        percent_encoded(bytes)[i] != '?',
        percent_encoded(bytes)[i] != '#',
        percent_encoded(bytes)[i] != '{',
        percent_encoded(bytes)[i] != '}',
    decreases bytes.len(),
{
    let done = percent_encoded(bytes.drop_last());
    if i < done.len() {
        encoded_text_has_no_separator(bytes.drop_last(), i);
    } else {
        let b = bytes.last();
        let part = segment_byte(b);
        assert(percent_encoded(bytes)[i] == part[i - done.len()]);
    }
}

/// A part that is replaced by a text without `c` adds no `c`.
proof fn replacing_adds_none(s: Seq<char>, part: Seq<char>, new: Seq<char>, c: char)
    requires
        occurrences(new, c) == 0,
    ensures
        occurrences(replace_all(s, part, new), c) <= occurrences(s, c),
    decreases s.len(),
{
    if part.len() > 0 && s.len() > 0 {
        if part.is_prefix_of(s) {
            let rest = s.skip(part.len() as int);
            replacing_adds_none(rest, part, new, c);
            occurrences_of_both(new, replace_all(rest, part, new), c);
            occurrences_of_both(part, rest, c);
            assert(s =~= part + rest);
        } else {
            let rest = s.skip(1);
            replacing_adds_none(rest, part, new, c);
            occurrences_of_both(seq![s[0]], replace_all(rest, part, new), c);
            occurrences_of_both(seq![s[0]], rest, c);
            assert(s =~= seq![s[0]] + rest);
        }
    }
}

/// A character stands in two texts together as often as in both.
proof fn occurrences_of_both(a: Seq<char>, b: Seq<char>, c: char)
    ensures
        occurrences(a + b, c) == occurrences(a, c) + occurrences(b, c),
    decreases b.len(),
{
    if b.len() == 0 {
        assert(a + b =~= a);
    } else {
        occurrences_of_both(a, b.drop_last(), c);
        assert((a + b).drop_last() =~= a + b.drop_last());
    }
}

/// A character that stands nowhere occurs no time.
proof fn absent_occurs_never(s: Seq<char>, c: char)
    requires
        forall|i: int| 0 <= i < s.len() ==> #[trigger] s[i] != c,
    ensures
        occurrences(s, c) == 0,
    decreases s.len(),
{
    if s.len() > 0 {
        assert(s.last() == s[s.len() - 1]);
        assert forall|i: int| 0 <= i < s.drop_last().len() implies #[trigger] s.drop_last()[i]
            != c by {
            assert(s.drop_last()[i] == s[i]);
        }
        absent_occurs_never(s.drop_last(), c);
    }
}

/// No argument adds a path segment, a query or a fragment to the path of its operation.
pub proof fn arguments_add_no_segment(plan: OperationPlanView, args: JsonView, n: int, c: char)
    requires
        0 <= n <= plan.params.len(),
        c == '/' || c == '?' || c == '#',
    ensures
        occurrences(plan.path_filled(args, n), c) <= occurrences(plan.path_template, c),
    decreases n,
{
    if n > 0 {
        arguments_add_no_segment(plan, args, n - 1, c);
        if let Some(s) = plan.sent(args, n - 1, ParamLocation::Path) {
            let encoded = percent_encoded(encode_utf8(s));
            assert forall|i: int| 0 <= i < encoded.len() implies #[trigger] encoded[i] != c by {
                encoded_text_has_no_separator(encode_utf8(s), i);
            }
            absent_occurs_never(encoded, c);
            replacing_adds_none(
                plan.path_filled(args, n - 1),
                "{"@ + plan.params[n - 1].name + "}"@,
                encoded,
                c,
            );
        }
    }
}

/// What no parameter takes is found in what is left over, and nothing else is.
proof fn leftover_holds(plan: OperationPlanView, es: Seq<(Seq<char>, JsonView)>, q: Seq<char>)
    ensures
        lookup(plan.unclaimed(es), q) == (if plan.claims(q) {
            None
        } else {
            lookup(es, q)
        }),
    decreases es.len(),
{
    if es.len() > 0 {
        let init = es.drop_last();
        let last = es.last();
        leftover_holds(plan, init, q);
        lookup_behind(init, last.0, last.1, q);
        assert(init.push((last.0, last.1)) =~= es);
        if !plan.claims(last.0) {
            lookup_behind(plan.unclaimed(init), last.0, last.1, q);
            assert(plan.unclaimed(init).push((last.0, last.1)) =~= plan.unclaimed(es));
        }
    }
}

/// What is found once an entry stands behind the others.
pub proof fn lookup_behind<T>(es: Seq<(Seq<char>, T)>, key: Seq<char>, value: T, q: Seq<char>)
    ensures
        lookup(es.push((key, value)), q) == (if lookup(es, q) is Some {
            lookup(es, q)
        } else if q == key {
            Some(value)
        } else {
            None
        }),
    decreases es.len(),
{
    let all = es.push((key, value));
    if es.len() == 0 {
        assert(all.skip(1) =~= Seq::empty());
        reveal_with_fuel(lookup, 2);
    } else {
        lookup_behind(es.skip(1), key, value, q);
        assert(all.skip(1) =~= es.skip(1).push((key, value)));
        assert(all[0] == es[0]);
    }
}

/// Where the body is an object, every argument that no parameter takes is a field of the body,
/// unchanged, and no argument that one takes is.
pub proof fn leftover_arguments_form_the_body(
    plan: OperationPlanView,
    es: Seq<(Seq<char>, JsonView)>,
    q: Seq<char>,
)
    requires
        plan.layout() == BodyLayout::Hoisted,
    ensures
        plan.body_sent(JsonView::Object(es)) is Some,
        plan.body_sent(JsonView::Object(es))->Some_0.get(q) == (if plan.claims(q) {
            None
        } else {
            lookup(es, q)
        }),
{
    leftover_holds(plan, es, q);
}

// The document.

/// A text that is JSON is read as JSON; only one that is not is read as YAML.
pub proof fn json_is_tried_before_yaml(text: Seq<char>)
    ensures
        json_read(text) is Some ==> document_in(text) == Ok::<JsonView, Seq<char>>(
            json_read(text)->Some_0,
        ),
        json_read(text) is None ==> document_in(text) == yaml_read(text),
{
}

/// Inlining is bounded: at the limit a schema is left as it is, references and all.
pub proof fn inlining_stops_at_the_limit(root: JsonView, schema: JsonView, depth: nat)
    requires
        depth >= MAX_REF_DEPTH,
    ensures
        inlined(root, schema, depth) == schema,
{
}

/// A schema that refers to another document is left in place.
pub proof fn foreign_reference_stays(root: JsonView, schema: JsonView, depth: nat)
    requires
        schema.text_at("$ref"@) is Some,
        !"#"@.is_prefix_of(schema.text_at("$ref"@)->Some_0),
    ensures
        derefed(root, schema) == schema,
        inlined(root, schema, depth) == schema,
{
}

/// A reference that leads to itself is left in place.
pub proof fn cyclic_reference_stays(root: JsonView, schema: JsonView, depth: nat)
    requires
        schema.text_at("$ref"@) is Some,
        resolved(root, schema.text_at("$ref"@)->Some_0) == Some(schema),
    ensures
        derefed(root, schema) == schema,
        inlined(root, schema, depth) == schema,
{
    circling_returns(root, schema, MAX_REF_DEPTH as nat);
}

/// Following a reference that leads to itself gets nowhere.
proof fn circling_returns(root: JsonView, schema: JsonView, hops: nat)
    requires
        schema.text_at("$ref"@) is Some,
        resolved(root, schema.text_at("$ref"@)->Some_0) == Some(schema),
    ensures
        followed(root, schema, hops) == schema,
    decreases hops,
{
    if hops > 0 {
        circling_returns(root, schema, (hops - 1) as nat);
    }
}

/// A value without a reference is not followed.
pub proof fn plain_value_is_not_followed(root: JsonView, v: JsonView)
    requires
        v.text_at("$ref"@) is None,
    ensures
        derefed(root, v) == v,
{
}

/// A reference to a value that is no reference itself is replaced by that value, with the
/// references in it inlined in turn.
pub proof fn reference_is_inlined(root: JsonView, schema: JsonView, target: JsonView, depth: nat)
    requires
        depth < MAX_REF_DEPTH,
        schema.text_at("$ref"@) is Some,
        resolved(root, schema.text_at("$ref"@)->Some_0) == Some(target),
        target.get("$ref"@) is None,
    ensures
        inlined(root, schema, depth) == inlined(root, target, depth + 1),
{
    reveal_with_fuel(followed, 3);
}

/// What is found among the members of a schema once they are inlined.
pub proof fn inlined_member_is_found(
    root: JsonView,
    es: Seq<(Seq<char>, JsonView)>,
    depth: nat,
    q: Seq<char>,
)
    ensures
        lookup(inlined_members(root, es, depth), q) == (match lookup(es, q) {
            Some(v) => inlined_member(root, q, v, depth),
            None => None,
        }),
    decreases es.len(),
{
    if es.len() > 0 {
        let init = es.drop_last();
        let last = es.last();
        inlined_member_is_found(root, init, depth, q);
        lookup_behind(init, last.0, last.1, q);
        assert(init.push((last.0, last.1)) =~= es);
        if let Some(v) = inlined_member(root, last.0, last.1, depth) {
            lookup_behind(inlined_members(root, init, depth), last.0, v, q);
        }
    }
}

/// `nullable` becomes a type union: it is itself gone, and a single type is joined by `null`.
/// Without it the type stays as it was.
pub proof fn nullable_becomes_union(root: JsonView, es: Seq<(Seq<char>, JsonView)>, depth: nat)
    requires
        depth < MAX_REF_DEPTH,
        lookup(es, "$ref"@) is None,
    ensures
        inlined(root, JsonView::Object(es), depth).get("nullable"@) is None,
        JsonView::Object(es).flag_at("nullable"@) == Some(true) && JsonView::Object(es).text_at(
            "type"@,
        ) is Some ==> inlined(root, JsonView::Object(es), depth).get("type"@) == Some(
            JsonView::Array(
                seq![
                    JsonView::String(JsonView::Object(es).text_at("type"@)->Some_0),
                    JsonView::String("null"@),
                ],
            ),
        ),
        JsonView::Object(es).flag_at("nullable"@) != Some(true) ==> inlined(
            root,
            JsonView::Object(es),
            depth,
        ).get("type"@) == lookup(es, "type"@),
{
    reveal_strlit("type");
    reveal_strlit("nullable");
    reveal_strlit("properties");
    reveal_strlit("items");
    reveal_strlit("allOf");
    reveal_strlit("anyOf");
    reveal_strlit("oneOf");
    assert("type"@.len() == 4 && "nullable"@.len() == 8);
    assert("properties"@.len() == 10 && "items"@.len() == 5);
    assert("allOf"@.len() == 5 && "anyOf"@.len() == 5 && "oneOf"@.len() == 5);
    let out = inlined_members(root, es, depth);
    inlined_member_is_found(root, es, depth, "nullable"@);
    inlined_member_is_found(root, es, depth, "type"@);
    if let Some(t) = JsonView::Object(out).text_at("type"@) {
        let kinds = JsonView::Array(seq![JsonView::String(t), JsonView::String("null"@)]);
        lookup_with_entry(out, "type"@, kinds, "nullable"@);
        lookup_with_entry(out, "type"@, kinds, "type"@);
    }
}

/// An operation with an empty list of security requirements is sent without credentials,
/// whatever the document requires.
pub proof fn empty_security_disables_credentials(root: JsonView, op: JsonView)
    requires
        op.get("security"@) == Some(JsonView::Array(Seq::empty())),
    ensures
        auth_names(root, op).len() == 0,
{
}

/// An operation's own security stands in place of the document's.
pub proof fn own_security_overrides(root: JsonView, other: JsonView, op: JsonView)
    requires
        op.get("security"@) is Some,
    ensures
        auth_names(root, op) == auth_names(other, op),
{
}

/// The key of a parameter that is declared in a list is among the keys of the list.
pub proof fn declared_key_is_listed(root: JsonView, raws: Seq<JsonView>, j: int)
    requires
        0 <= j < raws.len(),
        param_key(root, raws[j]) is Some,
    ensures
        keys_declared(root, raws).contains(param_key(root, raws[j])->Some_0),
    decreases raws.len(),
{
    let init = raws.drop_last();
    let done = keys_declared(root, init);
    let all = keys_declared(root, raws);
    let key = param_key(root, raws[j])->Some_0;
    if j == raws.len() - 1 {
        assert(all[all.len() - 1] == key);
    } else {
        assert(init[j] == raws[j]);
        declared_key_is_listed(root, init, j);
        let k = choose|k: int| 0 <= k < done.len() && done[k] == key;
        assert(all[k] == key);
    }
}

/// Every planned parameter is declared in its list, as the first with its name and `in`, and
/// none of them is one that is barred.
pub proof fn planned_parameter_is_declared(
    root: JsonView,
    raws: Seq<JsonView>,
    barred: Seq<(Seq<char>, Seq<char>)>,
    i: int,
)
    requires
        0 <= i < params_planned(root, raws, barred).len(),
    ensures
        exists|j: int|
            #![trigger raws[j]]
            0 <= j < raws.len() && ({
                let key = param_key(root, raws[j]);
                &&& key is Some
                &&& !barred.contains(key->Some_0)
                &&& params_planned(root, raws, barred)[i] == param_planned(
                    root,
                    derefed(root, raws[j]),
                    key->Some_0.0,
                    key->Some_0.1,
                )
                &&& forall|k: int| 0 <= k < j ==> param_key(root, #[trigger] raws[k]) != key
            }),
    decreases raws.len(),
{
    let init = raws.drop_last();
    let done = params_planned(root, init, barred);
    if i < done.len() {
        planned_parameter_is_declared(root, init, barred, i);
        let j = choose|j: int|
            #![trigger init[j]]
            0 <= j < init.len() && ({
                let key = param_key(root, init[j]);
                &&& key is Some
                &&& !barred.contains(key->Some_0)
                &&& done[i] == param_planned(
                    root,
                    derefed(root, init[j]),
                    key->Some_0.0,
                    key->Some_0.1,
                )
                &&& forall|k: int| 0 <= k < j ==> param_key(root, #[trigger] init[k]) != key
            });
        assert(init[j] == raws[j]);
        assert forall|k: int| 0 <= k < j implies param_key(root, #[trigger] raws[k]) != param_key(
            root,
            raws[j],
        ) by {
            assert(init[k] == raws[k]);
        }
    } else {
        let j = raws.len() - 1;
        let key = param_key(root, raws[j]);
        assert forall|k: int| 0 <= k < j implies param_key(root, #[trigger] raws[k]) != key by {
            assert(init[k] == raws[k]);
            if param_key(root, init[k]) is Some {
                declared_key_is_listed(root, init, k);
            }
        }
    }
}

/// A parameter of an operation overrides one of its path with the same name and `in`: of the
/// path's parameters only those come into the plan that the operation does not declare itself.
pub proof fn operation_parameter_overrides(
    root: JsonView,
    shared: Seq<JsonView>,
    own: Seq<JsonView>,
    i: int,
    k: int,
)
    requires
        0 <= i < params_planned(root, shared, keys_declared(root, own)).len(),
        0 <= k < own.len(),
        param_key(root, own[k]) is Some,
    ensures
        exists|j: int|
            #![trigger shared[j]]
            0 <= j < shared.len() && ({
                let key = param_key(root, shared[j]);
                &&& key is Some
                &&& key != param_key(root, own[k])
                &&& params_planned(root, shared, keys_declared(root, own))[i] == param_planned(
                    root,
                    derefed(root, shared[j]),
                    key->Some_0.0,
                    key->Some_0.1,
                )
            }),
{
    let barred = keys_declared(root, own);
    planned_parameter_is_declared(root, shared, barred, i);
    declared_key_is_listed(root, own, k);
}

// Credentials.

/// All the tokens of a value are among those of its map, and nothing else is.
proof fn tokens_come_from_values(es: Seq<(Seq<char>, Seq<Seq<char>>)>, q: Seq<char>)
    ensures
        tokens_in(es).contains(q) <==> exists|i: int|
            0 <= i < es.len() && (#[trigger] es[i]).1.contains(q),
    decreases es.len(),
{
    if es.len() > 0 {
        let init = es.drop_last();
        tokens_come_from_values(init, q);
        let done = tokens_in(init);
        let last = es.last().1;
        let all = tokens_in(es);
        assert(es[es.len() - 1] == es.last());
        if all.contains(q) {
            let k = choose|k: int| 0 <= k < all.len() && all[k] == q;
            if k < done.len() {
                assert(done[k] == q);
                let i = choose|i: int| 0 <= i < init.len() && (#[trigger] init[i]).1.contains(q);
                assert(init[i] == es[i]);
            } else {
                assert(last[k - done.len()] == q);
            }
        }
        if exists|i: int| 0 <= i < es.len() && (#[trigger] es[i]).1.contains(q) {
            let i = choose|i: int| 0 <= i < es.len() && (#[trigger] es[i]).1.contains(q);
            if i < init.len() {
                assert(init[i] == es[i]);
                let k = choose|k: int| 0 <= k < done.len() && done[k] == q;
                assert(all[k] == q);
            } else {
                let k = choose|k: int| 0 <= k < last.len() && last[k] == q;
                assert(all[done.len() + k] == q);
            }
        }
    }
}

/// A credential is asked for exactly where one of the scanned headers or secrets carries its
/// token.
pub proof fn only_carried_credentials_are_asked_for(
    headers: Seq<(Seq<char>, Seq<Seq<char>>)>,
    auth: Seq<(Seq<char>, Seq<Seq<char>>)>,
    q: Seq<char>,
)
    ensures
        uris_needed(headers, auth).contains(q) <==> {
            ||| exists|i: int| 0 <= i < headers.len() && (#[trigger] headers[i]).1.contains(q)
            ||| exists|i: int| 0 <= i < auth.len() && (#[trigger] auth[i]).1.contains(q)
        },
{
    let a = tokens_in(headers);
    let b = tokens_in(auth);
    names_in_order(a + b);
    tokens_come_from_values(headers, q);
    tokens_come_from_values(auth, q);
    if (a + b).contains(q) {
        let k = choose|k: int| 0 <= k < (a + b).len() && (a + b)[k] == q;
        if k < a.len() {
            assert(a[k] == q);
        } else {
            assert(b[k - a.len()] == q);
        }
    }
    if a.contains(q) {
        let k = choose|k: int| 0 <= k < a.len() && a[k] == q;
        assert((a + b)[k] == q);
    }
    if b.contains(q) {
        let k = choose|k: int| 0 <= k < b.len() && b[k] == q;
        assert((a + b)[a.len() + k] == q);
    }
}

/// Values without tokens have nothing asked for and leave every header as it is.
pub proof fn values_without_tokens_stay_verbatim(
    headers: Seq<(Seq<char>, Seq<char>)>,
    tokens: Seq<(Seq<char>, Seq<Seq<char>>)>,
    auth: Seq<(Seq<char>, Seq<Seq<char>>)>,
    replaced: Seq<(Seq<char>, Seq<char>)>,
    host_available: bool,
)
    requires
        forall|i: int| 0 <= i < tokens.len() ==> (#[trigger] tokens[i]).1.len() == 0,
        forall|i: int| 0 <= i < auth.len() ==> (#[trigger] auth[i]).1.len() == 0,
    ensures
        asked(uris_needed(tokens, auth), host_available) == Ok::<
            Option<JsonView>,
            BackendErrorView,
        >(None),
        headers_resolved(headers, tokens, replaced) == headers,
{
    let uris = uris_needed(tokens, auth);
    if uris.len() > 0 {
        only_carried_credentials_are_asked_for(tokens, auth, uris[0]);
        assert(uris.contains(uris[0]));
    }
    if names_bearing(tokens).len() > 0 {
        bearing_name_carries_token(tokens, names_bearing(tokens)[0]);
        assert(names_bearing(tokens).contains(names_bearing(tokens)[0]));
    }
}

/// A name bears a token exactly where an entry under it has one.
proof fn bearing_name_carries_token(es: Seq<(Seq<char>, Seq<Seq<char>>)>, q: Seq<char>)
    ensures
        names_bearing(es).contains(q) <==> exists|i: int|
            0 <= i < es.len() && (#[trigger] es[i]).0 == q && es[i].1.len() > 0,
    decreases es.len(),
{
    if es.len() > 0 {
        let init = es.drop_last();
        let done = names_bearing(init);
        let all = names_bearing(es);
        bearing_name_carries_token(init, q);
        assert(es[es.len() - 1] == es.last());
        if all.contains(q) {
            let k = choose|k: int| 0 <= k < all.len() && all[k] == q;
            if k < done.len() {
                assert(done[k] == q);
                let i = choose|i: int|
                    0 <= i < init.len() && (#[trigger] init[i]).0 == q && init[i].1.len() > 0;
                assert(init[i] == es[i]);
            }
        }
        if exists|i: int| 0 <= i < es.len() && (#[trigger] es[i]).0 == q && es[i].1.len() > 0 {
            let i = choose|i: int|
                0 <= i < es.len() && (#[trigger] es[i]).0 == q && es[i].1.len() > 0;
            if i < init.len() {
                assert(init[i] == es[i]);
                let k = choose|k: int| 0 <= k < done.len() && done[k] == q;
                assert(all[k] == q);
            } else {
                assert(all[all.len() - 1] == q);
            }
        }
    }
}

/// What is found once the first `n` names are written.
proof fn replaced_is_found(
    es: Seq<(Seq<char>, Seq<char>)>,
    names: Seq<Seq<char>>,
    replaced: Seq<(Seq<char>, Seq<char>)>,
    n: int,
    q: Seq<char>,
)
    requires
        0 <= n <= names.len(),
    ensures
        lookup(with_replaced(es, names, replaced, n), q) == (if names.take(n).contains(q)
            && lookup(replaced, q) is Some {
            lookup(replaced, q)
        } else {
            lookup(es, q)
        }),
    decreases n,
{
    if n > 0 {
        replaced_is_found(es, names, replaced, n - 1, q);
        let done = with_replaced(es, names, replaced, n - 1);
        if let Some(v) = lookup(replaced, names[n - 1]) {
            lookup_with_entry(done, names[n - 1], v, q);
        }
        let now = names.take(n);
        let then = names.take(n - 1);
        assert(now.drop_last() =~= then);
        if then.contains(q) {
            let k = choose|k: int| 0 <= k < then.len() && then[k] == q;
            assert(now[k] == q);
        }
        if now.contains(q) {
            let k = choose|k: int| 0 <= k < now.len() && now[k] == q;
            if k < n - 1 {
                assert(then[k] == q);
            }
        }
        if names[n - 1] == q {
            assert(now[n - 1] == q);
        }
    }
}

/// A header whose configured value carries no token is never written by a credential: what
/// a caller sent under it stays as it was sent.
pub proof fn unconfigured_header_is_never_resolved(
    headers: Seq<(Seq<char>, Seq<char>)>,
    tokens: Seq<(Seq<char>, Seq<Seq<char>>)>,
    replaced: Seq<(Seq<char>, Seq<char>)>,
    q: Seq<char>,
)
    requires
        forall|i: int| 0 <= i < tokens.len() && (#[trigger] tokens[i]).0 == q ==> tokens[i].1.len()
            == 0,
    ensures
        lookup(headers_resolved(headers, tokens, replaced), q) == lookup(headers, q),
{
    let names = names_bearing(tokens);
    replaced_is_found(headers, names, replaced, names.len() as int, q);
    assert(names.take(names.len() as int) =~= names);
    bearing_name_carries_token(tokens, q);
}

/// A header whose configured value carries a token is sent with the operator's value, whatever
/// a caller sent under its name.
pub proof fn configured_credential_is_not_displaced(
    headers: Seq<(Seq<char>, Seq<char>)>,
    tokens: Seq<(Seq<char>, Seq<Seq<char>>)>,
    replaced: Seq<(Seq<char>, Seq<char>)>,
    i: int,
)
    requires
        0 <= i < tokens.len(),
        tokens[i].1.len() > 0,
        lookup(replaced, tokens[i].0) is Some,
    ensures
        lookup(headers_resolved(headers, tokens, replaced), tokens[i].0) == lookup(
            replaced,
            tokens[i].0,
        ),
{
    let names = names_bearing(tokens);
    replaced_is_found(headers, names, replaced, names.len() as int, tokens[i].0);
    assert(names.take(names.len() as int) =~= names);
    bearing_name_carries_token(tokens, tokens[i].0);
}

/// What is found once the parameters of a call are over the fixed headers: the last parameter
/// of that name, or else the fixed header.
pub proof fn merged_header_is_found(
    fixed: Seq<(Seq<char>, Seq<char>)>,
    params: Seq<(Seq<char>, Seq<char>)>,
    n: int,
    q: Seq<char>,
)
    requires
        0 <= n <= params.len(),
    ensures
        (forall|j: int| 0 <= j < n ==> (#[trigger] params[j]).0 != q) ==> lookup(
            headers_merged(fixed, params, n),
            q,
        ) == lookup(fixed, q),
        forall|i: int|
            0 <= i < n && (#[trigger] params[i]).0 == q && (forall|j: int|
                i < j < n ==> (#[trigger] params[j]).0 != q) ==> lookup(
                headers_merged(fixed, params, n),
                q,
            ) == Some(params[i].1),
    decreases n,
{
    if n > 0 {
        merged_header_is_found(fixed, params, n - 1, q);
        lookup_with_entry(
            headers_merged(fixed, params, n - 1),
            params[n - 1].0,
            params[n - 1].1,
            q,
        );
    }
}

/// The header that a scheme sends a secret in, and what it holds.
pub open spec fn header_sent(scheme: SecuritySchemeView, value: Seq<char>) -> Option<
    (Seq<char>, Seq<char>),
> {
    match scheme {
        SecuritySchemeView::ApiKeyHeader { name } => Some((name, value)),
        SecuritySchemeView::Bearer => Some(("Authorization"@, "Bearer "@ + value)),
        SecuritySchemeView::Basic => Some(
            ("Authorization"@, "Basic "@ + base64_text(encode_utf8(value))),
        ),
        _ => None,
    }
}

/// Whether a scheme writes the header `q`.
pub open spec fn writes_header(scheme: SecuritySchemeView, q: Seq<char>) -> bool {
    match scheme {
        SecuritySchemeView::ApiKeyHeader { name } => name == q,
        SecuritySchemeView::Bearer => q == "Authorization"@,
        SecuritySchemeView::Basic => q == "Authorization"@,
        _ => false,
    }
}

/// The pairs that the first `n` of the schemes `names` send in the query.
pub open spec fn query_secrets(
    names: Seq<Seq<char>>,
    declared: Seq<(Seq<char>, SecuritySchemeView)>,
    secrets: Seq<(Seq<char>, Seq<char>)>,
    n: int,
) -> Seq<(Seq<char>, Seq<char>)>
    decreases n,
{
    if n <= 0 {
        Seq::empty()
    } else {
        let done = query_secrets(names, declared, secrets, n - 1);
        match (lookup(declared, names[n - 1]), lookup(secrets, names[n - 1])) {
            (Some(SecuritySchemeView::ApiKeyQuery { name }), Some(value)) => done.push(
                (name, value),
            ),
            _ => done,
        }
    }
}

/// What a secret does to headers and query.
proof fn secret_is_one_header_or_pair(
    start: Credited,
    scheme: SecuritySchemeView,
    value: Seq<char>,
    q: Seq<char>,
)
    ensures
        header_sent(scheme, value) is Some ==> writes_header(
            scheme,
            header_sent(scheme, value)->Some_0.0,
        ),
        lookup(start.with_secret(scheme, value).headers, q) == (if writes_header(scheme, q) {
            Some(header_sent(scheme, value)->Some_0.1)
        } else {
            lookup(start.headers, q)
        }),
{
    if let Some((h, v)) = header_sent(scheme, value) {
        lookup_with_entry(start.headers, h, v, q);
    }
}

/// Secrets leave every header alone that their schemes do not write.
pub proof fn secret_leaves_other_headers(
    start: Credited,
    names: Seq<Seq<char>>,
    declared: Seq<(Seq<char>, SecuritySchemeView)>,
    secrets: Seq<(Seq<char>, Seq<char>)>,
    n: int,
    q: Seq<char>,
)
    requires
        0 <= n <= names.len(),
        forall|i: int|
            0 <= i < n && lookup(declared, #[trigger] names[i]) is Some && lookup(
                secrets,
                names[i],
            ) is Some ==> !writes_header(lookup(declared, names[i])->Some_0, q),
    ensures
        lookup(start.with_secrets(names, declared, secrets, n).headers, q) == lookup(
            start.headers,
            q,
        ),
    decreases n,
{
    if n > 0 {
        secret_leaves_other_headers(start, names, declared, secrets, n - 1, q);
        let done = start.with_secrets(names, declared, secrets, n - 1);
        let name = names[n - 1];
        if let (Some(scheme), Some(value)) = (lookup(declared, name), lookup(secrets, name)) {
            secret_is_one_header_or_pair(done, scheme, value, q);
        }
    }
}

/// Each secret of a call is what the operator configured for its scheme.
proof fn secret_is_configured(
    names: Seq<Seq<char>>,
    auth: Seq<(Seq<char>, Seq<char>)>,
    n: int,
    i: int,
)
    requires
        0 <= i < secrets_for(names, auth, n).len(),
    ensures
        ({
            let (k, v) = secrets_for(names, auth, n)[i];
            lookup(auth, k) == Some(v)
        }),
    decreases n,
{
    let done = secrets_for(names, auth, n - 1);
    match lookup(auth, names[n - 1]) {
        Some(v) => {
            with_entry_adds_one(done, names[n - 1], v, i);
            let e = secrets_for(names, auth, n)[i];
            if done.contains(e) {
                let j = choose|j: int| 0 <= j < done.len() && done[j] == e;
                secret_is_configured(names, auth, n - 1, j);
            }
        },
        None => {
            secret_is_configured(names, auth, n - 1, i);
        },
    }
}

/// The arguments of a call have no part in the credentials that are asked for: whatever they
/// are, the same are asked for, whatever the grammar of tokens.
pub proof fn arguments_ask_for_no_credential(
    profile: ProfileView,
    src: SourceView,
    args: JsonView,
    other: JsonView,
    tokens_of: spec_fn(Seq<char>) -> Seq<Seq<char>>,
)
    requires
        call_prepared(profile, src, args) is Ok,
        call_prepared(profile, src, other) is Ok,
    ensures
        call_prepared(profile, src, args)->Ok_0.credentials_asked(src, tokens_of)
            == call_prepared(profile, src, other)->Ok_0.credentials_asked(src, tokens_of),
{
}

/// Every credential that is asked for is named by a token in a header or a secret that the
/// operator configured.
pub proof fn only_configured_credentials_are_asked_for(
    profile: ProfileView,
    src: SourceView,
    args: JsonView,
    tokens_of: spec_fn(Seq<char>) -> Seq<Seq<char>>,
    q: Seq<char>,
)
    requires
        call_prepared(profile, src, args) is Ok,
        call_prepared(profile, src, args)->Ok_0.credentials_asked(src, tokens_of).contains(q),
    ensures
        (exists|i: int|
            0 <= i < src.headers.len() && tokens_of((#[trigger] src.headers[i]).1).contains(q))
            || (exists|i: int|
            0 <= i < src.auth.len() && tokens_of((#[trigger] src.auth[i]).1).contains(q)),
{
    let call = call_prepared(profile, src, args)->Ok_0;
    let headers = mapped(src.headers, tokens_of);
    let auth = mapped(call.auth, tokens_of);
    only_carried_credentials_are_asked_for(headers, auth, q);
    if exists|i: int| 0 <= i < headers.len() && (#[trigger] headers[i]).1.contains(q) {
        let i = choose|i: int| 0 <= i < headers.len() && (#[trigger] headers[i]).1.contains(q);
        assert(tokens_of(src.headers[i].1).contains(q));
    } else {
        let i = choose|i: int| 0 <= i < auth.len() && (#[trigger] auth[i]).1.contains(q);
        let names = profile.plan.auth_schemes;
        secret_is_configured(names, src.auth, names.len() as int, i);
        let (k, v) = call.auth[i];
        lookup_finds_entry(src.auth, k);
        let j = choose|j: int| 0 <= j < src.auth.len() && #[trigger] src.auth[j] == (k, v);
        assert(tokens_of(src.auth[j].1).contains(q));
    }
}

/// A header that a caller sends through a parameter goes out exactly as it was sent, tokens and
/// all, where the value that the operator configured under its name carries no token and no
/// scheme of the operation writes it. This holds whatever the grammar of tokens is and whatever
/// their replacements are.
pub proof fn caller_header_travels_verbatim(
    profile: ProfileView,
    src: SourceView,
    args: JsonView,
    tokens_of: spec_fn(Seq<char>) -> Seq<Seq<char>>,
    replaced: spec_fn(Seq<char>) -> Seq<char>,
    i: int,
)
    requires
        call_prepared(profile, src, args) is Ok,
        ({
            let params = call_prepared(profile, src, args)->Ok_0.prepared.header_params;
            &&& 0 <= i < params.len()
            &&& forall|j: int| i < j < params.len() ==> (#[trigger] params[j]).0 != params[i].0
            &&& forall|j: int|
                0 <= j < src.headers.len() && (#[trigger] src.headers[j]).0 == params[i].0
                    ==> tokens_of(src.headers[j].1).len() == 0
            &&& forall|j: int|
                0 <= j < profile.plan.auth_schemes.len() && lookup(
                    src.security_schemes,
                    #[trigger] profile.plan.auth_schemes[j],
                ) is Some ==> !writes_header(
                    lookup(src.security_schemes, profile.plan.auth_schemes[j])->Some_0,
                    params[i].0,
                )
        }),
    ensures
        ({
            let call = call_prepared(profile, src, args)->Ok_0;
            let (name, value) = call.prepared.header_params[i];
            lookup(
                call.with_credentials(src, tokens_of, replaced).credited(profile, src).headers,
                name,
            ) == Some(value)
        }),
{
    let call = call_prepared(profile, src, args)->Ok_0;
    let done = call.with_credentials(src, tokens_of, replaced);
    let params = call.prepared.header_params;
    let q = params[i].0;
    let tokens = mapped(src.headers, tokens_of);
    merged_header_is_found(src.headers, params, params.len() as int, q);
    assert forall|j: int| 0 <= j < tokens.len() && (#[trigger] tokens[j]).0 == q implies tokens[j].1.len()
        == 0 by {
        assert(src.headers[j].0 == q);
    }
    unconfigured_header_is_never_resolved(
        call.headers,
        tokens,
        mapped(src.headers, replaced),
        q,
    );
    secret_leaves_other_headers(
        Credited { headers: done.headers, query: done.prepared.query },
        profile.plan.auth_schemes,
        src.security_schemes,
        done.auth,
        profile.plan.auth_schemes.len() as int,
        q,
    );
}

/// A header whose configured value carries a token goes out with the operator's value, its
/// tokens replaced, whatever a caller sent under its name, where no scheme of the operation
/// writes it.
pub proof fn configured_header_travels_resolved(
    profile: ProfileView,
    src: SourceView,
    args: JsonView,
    tokens_of: spec_fn(Seq<char>) -> Seq<Seq<char>>,
    replaced: spec_fn(Seq<char>) -> Seq<char>,
    i: int,
)
    requires
        call_prepared(profile, src, args) is Ok,
        ascending(src.headers),
        0 <= i < src.headers.len(),
        tokens_of(src.headers[i].1).len() > 0,
        forall|j: int|
            0 <= j < profile.plan.auth_schemes.len() && lookup(
                src.security_schemes,
                #[trigger] profile.plan.auth_schemes[j],
            ) is Some ==> !writes_header(
                lookup(src.security_schemes, profile.plan.auth_schemes[j])->Some_0,
                src.headers[i].0,
            ),
    ensures
        lookup(
            call_prepared(profile, src, args)->Ok_0.with_credentials(
                src,
                tokens_of,
                replaced,
            ).credited(profile, src).headers,
            src.headers[i].0,
        ) == Some(replaced(src.headers[i].1)),
{
    let call = call_prepared(profile, src, args)->Ok_0;
    let done = call.with_credentials(src, tokens_of, replaced);
    let q = src.headers[i].0;
    let tokens = mapped(src.headers, tokens_of);
    let values = mapped(src.headers, replaced);
    entry_holds_its_value(src.headers, i);
    lookup_in_mapped(src.headers, replaced, q);
    assert(tokens[i] == (q, tokens_of(src.headers[i].1)));
    configured_credential_is_not_displaced(call.headers, tokens, values, i);
    secret_leaves_other_headers(
        Credited { headers: done.headers, query: done.prepared.query },
        profile.plan.auth_schemes,
        src.security_schemes,
        done.auth,
        profile.plan.auth_schemes.len() as int,
        q,
    );
}

/// A secret that is sent in a header is found there, where none of the schemes behind it writes
/// the same header.
proof fn header_secret_is_sent(
    start: Credited,
    names: Seq<Seq<char>>,
    declared: Seq<(Seq<char>, SecuritySchemeView)>,
    secrets: Seq<(Seq<char>, Seq<char>)>,
    n: int,
    i: int,
)
    requires
        0 <= i < n <= names.len(),
        lookup(declared, names[i]) is Some,
        lookup(secrets, names[i]) is Some,
        header_sent(lookup(declared, names[i])->Some_0, lookup(secrets, names[i])->Some_0) is Some,
        forall|j: int|
            i < j < n && lookup(declared, #[trigger] names[j]) is Some && lookup(
                secrets,
                names[j],
            ) is Some ==> !writes_header(
                lookup(declared, names[j])->Some_0,
                header_sent(
                    lookup(declared, names[i])->Some_0,
                    lookup(secrets, names[i])->Some_0,
                )->Some_0.0,
            ),
    ensures
        ({
            let (h, v) = header_sent(
                lookup(declared, names[i])->Some_0,
                lookup(secrets, names[i])->Some_0,
            )->Some_0;
            lookup(start.with_secrets(names, declared, secrets, n).headers, h) == Some(v)
        }),
    decreases n,
{
    let done = start.with_secrets(names, declared, secrets, n - 1);
    let (h, v) = header_sent(
        lookup(declared, names[i])->Some_0,
        lookup(secrets, names[i])->Some_0,
    )->Some_0;
    let name = names[n - 1];
    if i < n - 1 {
        header_secret_is_sent(start, names, declared, secrets, n - 1, i);
    }
    if let (Some(scheme), Some(value)) = (lookup(declared, name), lookup(secrets, name)) {
        secret_is_one_header_or_pair(done, scheme, value, h);
    }
}

/// The query goes out as it was, with one pair behind it for each of the operation's schemes that
/// is declared to be sent there and that the operator gave a secret for.
pub proof fn secrets_join_the_query(
    start: Credited,
    names: Seq<Seq<char>>,
    declared: Seq<(Seq<char>, SecuritySchemeView)>,
    secrets: Seq<(Seq<char>, Seq<char>)>,
    n: int,
)
    requires
        0 <= n <= names.len(),
    ensures
        start.with_secrets(names, declared, secrets, n).query == start.query + query_secrets(
            names,
            declared,
            secrets,
            n,
        ),
        forall|i: int|
            0 <= i < n && lookup(declared, #[trigger] names[i]) is Some && lookup(
                secrets,
                names[i],
            ) is Some ==> (lookup(declared, names[i])->Some_0 matches SecuritySchemeView::ApiKeyQuery {
                name,
            } ==> start.with_secrets(names, declared, secrets, n).query.contains(
                (name, lookup(secrets, names[i])->Some_0),
            )),
    decreases n,
{
    let all = start.with_secrets(names, declared, secrets, n).query;
    if n > 0 {
        secrets_join_the_query(start, names, declared, secrets, n - 1);
        let done = start.with_secrets(names, declared, secrets, n - 1).query;
        assert(all =~= start.query + query_secrets(names, declared, secrets, n));
        assert forall|i: int|
            0 <= i < n && lookup(declared, #[trigger] names[i]) is Some && lookup(
                secrets,
                names[i],
            ) is Some implies (lookup(declared, names[i])->Some_0 matches SecuritySchemeView::ApiKeyQuery {
            name,
        } ==> all.contains((name, lookup(secrets, names[i])->Some_0))) by {
            if let SecuritySchemeView::ApiKeyQuery { name } = lookup(declared, names[i])->Some_0 {
                let pair = (name, lookup(secrets, names[i])->Some_0);
                if i < n - 1 {
                    let k = choose|k: int| 0 <= k < done.len() && done[k] == pair;
                    assert(all[k] == pair);
                } else {
                    assert(all[all.len() - 1] == pair);
                }
            }
        }
    } else {
        assert(all =~= start.query + query_secrets(names, declared, secrets, n));
    }
}

/// Every scheme of an operation that the document declares and the operator gave a secret for has
/// its header or its query pair sent as declared, whatever the call held before, where none of
/// the schemes behind it writes the same header.
pub proof fn secret_is_sent_as_declared(
    start: Credited,
    names: Seq<Seq<char>>,
    declared: Seq<(Seq<char>, SecuritySchemeView)>,
    secrets: Seq<(Seq<char>, Seq<char>)>,
    i: int,
)
    requires
        0 <= i < names.len(),
        lookup(declared, names[i]) is Some,
        lookup(secrets, names[i]) is Some,
        forall|j: int, q: Seq<char>|
            i < j < names.len() && lookup(declared, #[trigger] names[j]) is Some && lookup(
                secrets,
                names[j],
            ) is Some && #[trigger] writes_header(lookup(declared, names[i])->Some_0, q)
                ==> !writes_header(lookup(declared, names[j])->Some_0, q),
    ensures
        ({
            let r = start.with_secrets(names, declared, secrets, names.len() as int);
            let value = lookup(secrets, names[i])->Some_0;
            match lookup(declared, names[i])->Some_0 {
                SecuritySchemeView::ApiKeyHeader { name } => lookup(r.headers, name) == Some(value),
                SecuritySchemeView::ApiKeyQuery { name } => r.query.contains((name, value)),
                SecuritySchemeView::Bearer => lookup(r.headers, "Authorization"@) == Some(
                    "Bearer "@ + value,
                ),
                SecuritySchemeView::Basic => lookup(r.headers, "Authorization"@) == Some(
                    "Basic "@ + base64_text(encode_utf8(value)),
                ),
                SecuritySchemeView::Unsupported => true,
            }
        }),
{
    let n = names.len() as int;
    let scheme = lookup(declared, names[i])->Some_0;
    secrets_join_the_query(start, names, declared, secrets, n);
    if let Some((h, v)) = header_sent(scheme, lookup(secrets, names[i])->Some_0) {
        assert(writes_header(scheme, h));
        header_secret_is_sent(start, names, declared, secrets, n, i);
    }
}

/// Where every scheme of an operation is one that cannot be sent, nothing is.
pub proof fn unsupported_schemes_send_nothing(
    start: Credited,
    names: Seq<Seq<char>>,
    declared: Seq<(Seq<char>, SecuritySchemeView)>,
    secrets: Seq<(Seq<char>, Seq<char>)>,
    n: int,
)
    requires
        0 <= n <= names.len(),
        forall|i: int|
            0 <= i < n && lookup(declared, #[trigger] names[i]) is Some ==> lookup(
                declared,
                names[i],
            )->Some_0 is Unsupported,
    ensures
        start.with_secrets(names, declared, secrets, n) == start,
    decreases n,
{
    if n > 0 {
        unsupported_schemes_send_nothing(start, names, declared, secrets, n - 1);
        assert(lookup(declared, names[n - 1]) is Some ==> lookup(
            declared,
            names[n - 1],
        )->Some_0 is Unsupported);
    }
}

/// A scheme for which the operator gave no secret is not sent.
pub proof fn missing_secret_sends_nothing(
    start: Credited,
    names: Seq<Seq<char>>,
    declared: Seq<(Seq<char>, SecuritySchemeView)>,
    secrets: Seq<(Seq<char>, Seq<char>)>,
    n: int,
)
    requires
        0 <= n <= names.len(),
        forall|i: int| 0 <= i < n ==> lookup(secrets, #[trigger] names[i]) is None,
    ensures
        start.with_secrets(names, declared, secrets, n) == start,
    decreases n,
{
    if n > 0 {
        missing_secret_sends_nothing(start, names, declared, secrets, n - 1);
        assert(lookup(secrets, names[n - 1]) is None);
    }
}

/// A secret is sent with its credentials replaced; one that no replacement is given for is sent
/// as it is. So basic authentication encodes the replaced secret.
pub proof fn resolved_secret_is_used(
    auth: Seq<(Seq<char>, Seq<char>)>,
    replaced: Seq<(Seq<char>, Seq<char>)>,
    q: Seq<char>,
)
    ensures
        lookup(auth_resolved(auth, replaced), q) == (match (lookup(auth, q), lookup(replaced, q)) {
            (Some(_), Some(v)) => Some(v),
            (found, _) => found,
        }),
    decreases auth.len(),
{
    let all = auth_resolved(auth, replaced);
    if auth.len() > 0 {
        resolved_secret_is_used(auth.skip(1), replaced, q);
        assert(all.skip(1) =~= auth_resolved(auth.skip(1), replaced));
    }
}

/// Of the operator's secrets a call takes those of its operation's schemes, and no others.
pub proof fn only_needed_secrets_are_taken(
    names: Seq<Seq<char>>,
    auth: Seq<(Seq<char>, Seq<char>)>,
    n: int,
    q: Seq<char>,
)
    requires
        0 <= n <= names.len(),
    ensures
        lookup(secrets_for(names, auth, n), q) == (if names.take(n).contains(q) {
            lookup(auth, q)
        } else {
            None
        }),
    decreases n,
{
    if n > 0 {
        only_needed_secrets_are_taken(names, auth, n - 1, q);
        if let Some(v) = lookup(auth, names[n - 1]) {
            lookup_with_entry(secrets_for(names, auth, n - 1), names[n - 1], v, q);
        }
        let now = names.take(n);
        let then = names.take(n - 1);
        if then.contains(q) {
            let k = choose|k: int| 0 <= k < then.len() && then[k] == q;
            assert(now[k] == q);
        }
        if now.contains(q) {
            let k = choose|k: int| 0 <= k < now.len() && now[k] == q;
            if k < n - 1 {
                assert(then[k] == q);
            }
        }
        assert(now[n - 1] == names[n - 1]);
    }
}

// Capabilities.

/// One capability comes of each operation.
proof fn one_capability_each(
    source: Seq<char>,
    src: SourceView,
    expose: ExposeConfig,
    root: JsonView,
    ops: Seq<OperationMetaView>,
)
    ensures
        ({
            let set = capabilities_for(source, src, expose, root, ops);
            set.tools.len() + set.resource_templates.len() == ops.len()
        }),
    decreases ops.len(),
{
    if ops.len() > 0 {
        one_capability_each(source, src, expose, root, ops.drop_last());
    }
}

/// A source exposes one capability per operation that its filter admits, and never more than
/// its cap.
pub proof fn cap_is_never_exceeded(source: Seq<char>, src: SourceView)
    ensures
        source_expanded(source, src) is Ok <==> exposed(src).len() <= src.filter.max_capabilities,
        source_expanded(source, src) is Ok ==> ({
            let set = source_expanded(source, src)->Ok_0;
            set.tools.len() + set.resource_templates.len() == exposed(src).len()
        }),
{
    if source_expanded(source, src) is Ok && exposed(src).len() > 0 {
        one_capability_each(
            source,
            src,
            src.expose->Some_0,
            src.document->Ok_0,
            exposed(src),
        );
    }
}

/// A source that is not exposed, or whose document could not be read, has no capabilities.
pub proof fn unexposed_source_has_no_capabilities(source: Seq<char>, src: SourceView)
    requires
        src.expose is None || !src.expose->Some_0.tools || src.document is Err,
    ensures
        source_expanded(source, src) == Ok::<CapabilitySetView, BackendErrorView>(
            CapabilitySetView::none(),
        ),
{
}

/// An operation is admitted exactly where it is listed and the filter admits it.
proof fn admitted_are_listed(
    filter: FilterConfig,
    ops: Seq<OperationMetaView>,
    n: int,
    op: OperationMetaView,
)
    requires
        0 <= n <= ops.len(),
    ensures
        admitted(filter, ops, n).contains(op) <==> ops.take(n).contains(op) && filter.admits(op),
    decreases n,
{
    if n > 0 {
        admitted_are_listed(filter, ops, n - 1, op);
        let now = ops.take(n);
        let then = ops.take(n - 1);
        let done = admitted(filter, ops, n - 1);
        let all = admitted(filter, ops, n);
        if now.contains(op) {
            let k = choose|k: int| 0 <= k < now.len() && now[k] == op;
            if k < n - 1 {
                assert(then[k] == op);
            }
        }
        if then.contains(op) {
            let k = choose|k: int| 0 <= k < then.len() && then[k] == op;
            assert(now[k] == op);
        }
        assert(now[n - 1] == ops[n - 1]);
        if done.contains(op) {
            let k = choose|k: int| 0 <= k < done.len() && done[k] == op;
            assert(all[k] == op);
        }
        if all.contains(op) {
            let k = choose|k: int| 0 <= k < all.len() && all[k] == op;
            if k < done.len() {
                assert(done[k] == op);
            }
        }
        if filter.admits(ops[n - 1]) {
            assert(all[all.len() - 1] == ops[n - 1]);
        }
    }
}

/// The operations that an exposed source exposes are those of its document that its filter
/// admits, and no others.
pub proof fn exposed_operations_pass_the_filter(src: SourceView, op: OperationMetaView)
    requires
        src.expose is Some,
        src.expose->Some_0.tools,
        src.document is Ok,
    ensures
        exposed(src).contains(op) <==> document_operations(src.document->Ok_0).contains(op)
            && src.filter.admits(op),
{
    let ops = document_operations(src.document->Ok_0);
    admitted_are_listed(src.filter, ops, ops.len() as int, op);
    assert(ops.take(ops.len() as int) =~= ops);
}

/// A filter without lists admits every operation.
pub proof fn empty_filter_admits_all(filter: FilterConfig, op: OperationMetaView)
    requires
        filter.methods@.len() == 0,
        filter.include_operations@.len() == 0,
        filter.exclude_operations@.len() == 0,
        filter.include_tags@.len() == 0,
        filter.exclude_tags@.len() == 0,
    ensures
        filter.admits(op),
{
    assert(texts(filter.exclude_operations@).len() == 0);
    assert(texts(filter.exclude_tags@).len() == 0);
}

/// An operation that a list of exclusions names is never admitted.
pub proof fn exclusion_wins(filter: FilterConfig, op: OperationMetaView)
    requires
        texts(filter.exclude_operations@).contains(op.operation_id) || shares(
            op.tags,
            texts(filter.exclude_tags@),
        ),
    ensures
        !filter.admits(op),
{
}

/// A source whose document could not be read holds up no other: the expansion is what it is
/// without that source.
pub proof fn failed_source_holds_up_no_other(sources: Seq<(Seq<char>, SourceView)>, n: int, i: int)
    requires
        0 <= i < n <= sources.len(),
        sources[i].1.document is Err,
    ensures
        sources_expanded(sources, n) == sources_expanded(sources.remove(i), n - 1),
    decreases n,
{
    let others = sources.remove(i);
    if i == n - 1 {
        same_sources_same_expansion(sources, others, n - 1);
        if let Ok(done) = sources_expanded(sources, n - 1) {
            assert(done.with(CapabilitySetView::none()) =~= done);
        }
    } else {
        failed_source_holds_up_no_other(sources, n - 1, i);
        assert(others[n - 2] == sources[n - 1]);
    }
}

/// An expansion depends on the sources that it takes alone.
proof fn same_sources_same_expansion(
    a: Seq<(Seq<char>, SourceView)>,
    b: Seq<(Seq<char>, SourceView)>,
    n: int,
)
    requires
        0 <= n <= a.len(),
        n <= b.len(),
        forall|k: int| 0 <= k < n ==> a[k] == b[k],
    ensures
        sources_expanded(a, n) == sources_expanded(b, n),
    decreases n,
{
    if n > 0 {
        same_sources_same_expansion(a, b, n - 1);
    }
}

/// An expansion succeeds exactly where every source keeps to its cap.
pub proof fn expansion_fails_closed(sources: Seq<(Seq<char>, SourceView)>, n: int)
    requires
        0 <= n <= sources.len(),
    ensures
        sources_expanded(sources, n) is Ok <==> forall|i: int|
            0 <= i < n ==> exposed((#[trigger] sources[i]).1).len()
                <= sources[i].1.filter.max_capabilities,
    decreases n,
{
    if n > 0 {
        expansion_fails_closed(sources, n - 1);
        cap_is_never_exceeded(sources[n - 1].0, sources[n - 1].1);
        if sources_expanded(sources, n) is Ok {
            assert forall|i: int| 0 <= i < n implies exposed((#[trigger] sources[i]).1).len()
                <= sources[i].1.filter.max_capabilities by {
                if i < n - 1 {
                    assert(sources_expanded(sources, n - 1) is Ok);
                }
            }
        }
    }
}

// Answers.

/// The envelope carries a `downstreamError` that is not null exactly where there was no response
/// or its status is no success.
pub proof fn failure_is_marked(
    tool_name: Seq<char>,
    profile: Seq<char>,
    prepared: PreparedRequestView,
    url: Seq<char>,
    outcome: Result<HttpOutcomeView, Seq<char>>,
    parsed: Option<JsonView>,
)
    ensures
        ({
            let answer = envelope(tool_name, profile, prepared, url, outcome, parsed);
            let failure = answer.get("downstreamError"@);
            &&& failure is Some
            &&& failure->Some_0 is Null <==> outcome is Ok && outcome->Ok_0.succeeded()
        }),
{
    let pairs = envelope_members(tool_name, profile, prepared, url, outcome, parsed);
    object_holds_last(pairs, 5);
}

/// The envelope carries the response where there was one, and the error where there was none.
pub proof fn envelope_carries_outcome(
    tool_name: Seq<char>,
    profile: Seq<char>,
    prepared: PreparedRequestView,
    url: Seq<char>,
    outcome: Result<HttpOutcomeView, Seq<char>>,
    parsed: Option<JsonView>,
)
    ensures
        ({
            let answer = envelope(tool_name, profile, prepared, url, outcome, parsed);
            &&& answer.text_at("toolName"@) == Some(tool_name)
            &&& answer.text_at("profile"@) == Some(profile)
            &&& answer.get("request"@) == Some(request_report(prepared, url))
            &&& match outcome {
                Ok(out) => answer.get("response"@) == Some(response_report(out, parsed))
                    && answer.get("error"@) == Some(JsonView::Null),
                Err(message) => answer.get("response"@) == Some(JsonView::Null) && answer.text_at(
                    "error"@,
                ) == Some(message),
            }
        }),
{
    reveal_strlit("toolName");
    reveal_strlit("profile");
    reveal_strlit("request");
    reveal_strlit("response");
    reveal_strlit("error");
    reveal_strlit("downstreamError");
    assert("toolName"@.len() == 8 && "profile"@.len() == 7 && "request"@.len() == 7);
    assert("response"@.len() == 8 && "error"@.len() == 5 && "downstreamError"@.len() == 15);
    assert("toolName"@[0] == 't' && "response"@[0] == 'r');
    assert("profile"@[0] == 'p' && "request"@[0] == 'r');
    let pairs = envelope_members(tool_name, profile, prepared, url, outcome, parsed);
    object_holds_last(pairs, 0);
    object_holds_last(pairs, 1);
    object_holds_last(pairs, 2);
    object_holds_last(pairs, 3);
    object_holds_last(pairs, 4);
}

/// A failure is worth another try where there was no response or the upstream was at fault.
pub proof fn retry_is_advised(out: HttpOutcomeView, message: Seq<char>)
    ensures
        transport_failure(message).flag_at("retryable"@) == Some(true),
        !out.succeeded() ==> status_failure(out).flag_at("retryable"@) == Some(out.status >= 500),
        !out.succeeded() ==> status_failure(out).get("statusCode"@) == Some(
            JsonView::Number(number_of(out.status as u64)),
        ),
{
    reveal_strlit("statusCode");
    reveal_strlit("message");
    reveal_strlit("retryable");
    assert("statusCode"@.len() == 10 && "message"@.len() == 7 && "retryable"@.len() == 9);
    let lost = seq![
        ("kind"@, JsonView::String("transport_error"@)),
        ("message"@, JsonView::String(message)),
        ("retryable"@, JsonView::Bool(true)),
    ];
    object_holds_last(lost, 2);
    let failed = seq![
        ("kind"@, JsonView::String("unexpected_status_code"@)),
        ("statusCode"@, JsonView::Number(number_of(out.status as u64))),
        ("message"@, JsonView::String("upstream responded "@ + decimal(out.status as nat))),
        ("retryable"@, JsonView::Bool(out.status >= 500)),
    ];
    object_holds_last(failed, 1);
    object_holds_last(failed, 3);
}

/// A response is reported with the document that it holds only where its content type is JSON.
pub proof fn only_json_is_parsed(out: HttpOutcomeView)
    requires
        out.content_type is None || !has_part(out.content_type->Some_0, "json"@),
    ensures
        document_received(Ok(out)) is None,
        response_report(out, document_received(Ok(out))).get("json"@) == Some(JsonView::Null),
        response_report(out, document_received(Ok(out))).text_at("body"@) == Some(out.body_text),
{
    reveal_strlit("body");
    reveal_strlit("bodyTruncated");
    reveal_strlit("json");
    reveal_strlit("durationMs");
    assert("body"@.len() == 4 && "bodyTruncated"@.len() == 13);
    assert("json"@.len() == 4 && "durationMs"@.len() == 10);
    assert("body"@[0] == 'b' && "json"@[0] == 'j');
    let pairs = response_members(out, None);
    object_holds_last(pairs, 2);
    object_holds_last(pairs, 4);
}

/// A resource that was asked for and read is answered with its contents, under the URI that was
/// asked for.
pub proof fn resource_read_has_contents(
    args: JsonView,
    tool_name: Seq<char>,
    profile: Seq<char>,
    prepared: PreparedRequestView,
    url: Seq<char>,
    out: HttpOutcomeView,
    parsed: Option<JsonView>,
)
    requires
        asks_for_resource(args),
        out.succeeded(),
    ensures
        ({
            let reply = answer(args, tool_name, profile, prepared, url, Ok(out), parsed);
            &&& reply.items_at("contents"@) is Some
            &&& reply.items_at("contents"@)->Some_0.len() == 1
            &&& reply.items_at("contents"@)->Some_0[0].text_at("uri"@) == Some(
                match args.text_at("uri"@) {
                    Some(uri) => uri,
                    None => url,
                },
            )
            &&& reply.items_at("contents"@)->Some_0[0].text_at("text"@) == Some(out.body_text)
        }),
{
    reveal_strlit("uri");
    reveal_strlit("mimeType");
    reveal_strlit("text");
    assert("uri"@.len() == 3 && "mimeType"@.len() == 8 && "text"@.len() == 4);
    let content = content_members(args, url, out);
    object_holds_last(content, 0);
    object_holds_last(content, 2);
    let list = JsonView::Array(seq![JsonView::Object(object_of(content))]);
    object_holds_last(seq![("contents"@, list)], 0);
}

/// A resource read that fails is answered with the envelope, so that the failure is visible.
pub proof fn failed_resource_read_is_visible(
    args: JsonView,
    tool_name: Seq<char>,
    profile: Seq<char>,
    prepared: PreparedRequestView,
    url: Seq<char>,
    outcome: Result<HttpOutcomeView, Seq<char>>,
    parsed: Option<JsonView>,
)
    requires
        outcome is Err || !outcome->Ok_0.succeeded(),
    ensures
        answer(args, tool_name, profile, prepared, url, outcome, parsed) == envelope(
            tool_name,
            profile,
            prepared,
            url,
            outcome,
            parsed,
        ),
{
}

/// What is kept of a body is its beginning, as much of it as the limit allows, and all of it where
/// it is within the limit.
pub proof fn body_is_kept_within_limit(body: Seq<u8>, max: nat)
    ensures
        kept(body, max).len() <= max,
        body.len() >= max ==> kept(body, max).len() == max,
        kept(body, max).is_prefix_of(body),
        kept(body, max) == body <==> body.len() <= max,
{
}

// Registration.

/// A profile that was registered is found under its name, and the others stay what they were.
pub proof fn registered_profile_is_found(
    before: PluginView,
    after: PluginView,
    name: Seq<char>,
    profile: ProfileView,
    q: Seq<char>,
)
    requires
        after.profiles == with_entry(before.profiles, name, profile),
    ensures
        after.profile(q) == (if q == name {
            Some(profile)
        } else {
            before.profile(q)
        }),
{
    lookup_with_entry(before.profiles, name, profile, q);
}

/// The source of every registered profile is there, so that a call under one never fails for
/// want of it.
pub proof fn registered_profile_has_its_source(plugin: PluginView, name: Seq<char>)
    requires
        plugin.well_formed(),
        plugin.profile(name) is Some,
    ensures
        plugin.called(name) is Ok,
        plugin.called(name)->Ok_0.0 == plugin.profile(name)->Some_0,
{
    lookup_finds_entry(plugin.profiles, name);
    let p = plugin.profile(name)->Some_0;
    let i = choose|i: int|
        0 <= i < plugin.profiles.len() && #[trigger] plugin.profiles[i] == (name, p);
    assert(plugin.bound(p.source, p.plan.operation_id) == Ok::<ProfileView, BackendErrorView>(p));
}

/// Whatever is wrong with a binding is an invalid specification. In particular an unknown
/// source is, and an operation that the document does not list.
pub proof fn bad_binding_is_invalid(plugin: PluginView, source: Seq<char>, operation: Seq<char>)
    ensures
        plugin.bound(source, operation) is Err ==> plugin.bound(source, operation)->Err_0 is InvalidSpec,
        plugin.source(source) is None ==> plugin.bound(source, operation) is Err,
        plugin.source(source) is Some && plugin.source(source)->Some_0.document is Ok && !(exists|
            i: int,
        |
            0 <= i < document_operations(plugin.source(source)->Some_0.document->Ok_0).len()
                && #[trigger] document_operations(
                plugin.source(source)->Some_0.document->Ok_0,
            )[i].operation_id == operation) ==> plugin.bound(source, operation) is Err,
{
    if let Some(src) = plugin.source(source) {
        if let Ok(root) = src.document {
            if plan_of(root, operation) is Ok {
                planned_operations_are_listed(root, operation);
            }
        }
    }
}

/// A binding that is accepted is to a known source whose document was read, and its profile is
/// for the operation that it names, so that it can be added to the plugin. It has a base URL that is not `http://` unless the source allows that.
pub proof fn good_binding_is_safe(plugin: PluginView, source: Seq<char>, operation: Seq<char>)
    requires
        plugin.bound(source, operation) is Ok,
    ensures
        plugin.source(source) is Some,
        plugin.source(source)->Some_0.document is Ok,
        plugin.bound(source, operation)->Ok_0.source == source,
        plugin.bound(source, operation)->Ok_0.plan.operation_id == operation,
        ({
            let p = plugin.bound(source, operation)->Ok_0;
            plugin.bound(p.source, p.plan.operation_id) == Ok::<ProfileView, BackendErrorView>(p)
        }),
        "http://"@.is_prefix_of(plugin.bound(source, operation)->Ok_0.base_url) ==> plugin.source(
            source,
        )->Some_0.allow_insecure_http,
{
    planned_operations_are_listed(plugin.source(source)->Some_0.document->Ok_0, operation);
}

/// A configured base URL stands in place of the servers of the document.
pub proof fn configured_base_url_wins(src: SourceView, root: JsonView)
    requires
        src.config_base_url is Some,
    ensures
        src.base_url(root) == Ok::<Seq<char>, Seq<char>>(src.config_base_url->Some_0),
{
}

/// Every tool of an expansion can be bound as its backend specification says: its operation has
/// a plan, whose input schema is the tool's.
pub proof fn exposed_operation_can_be_planned(src: SourceView, op: OperationMetaView)
    requires
        exposed(src).contains(op),
    ensures
        src.document is Ok,
        plan_of(src.document->Ok_0, op.operation_id) is Ok,
        plan_of(src.document->Ok_0, op.operation_id)->Ok_0.operation_id == op.operation_id,
{
    exposed_operations_pass_the_filter(src, op);
    let root = src.document->Ok_0;
    let ops = document_operations(root);
    let i = choose|i: int| 0 <= i < ops.len() && ops[i] == op;
    listed_operations_have_plans(root, i);
    planned_operations_are_listed(root, op.operation_id);
}

}
