//! What becomes of the references and subschemas of a schema, member by member, and what a JSON
//! pointer selects.
use crate::document::{derefed, followed, inlined, inlined_members, resolved};
use crate::json::{first_token, index_value, is_index, pointed, step, unescaped, JsonView};
use crate::laws::inlined_member_is_found;
use crate::text::{decimal, digit, replace_all};
use crate::text_map::{lookup, lookup_with_entry};
use vstd::prelude::*;

verus! {

// Pointers.

/// Nothing is replaced in a token without `~`.
proof fn plain_token_reads_as_it_is(t: Seq<char>, a: char, b: char)
    requires
        forall|i: int| 0 <= i < t.len() ==> #[trigger] t[i] != '~',
    ensures
        replace_all(t, seq!['~', a], seq![b]) == t,
    decreases t.len(),
{
    if t.len() > 0 {
        assert forall|i: int| 0 <= i < t.skip(1).len() implies #[trigger] t.skip(1)[i] != '~' by {
            assert(t.skip(1)[i] == t[i + 1]);
        }
        plain_token_reads_as_it_is(t.skip(1), a, b);
        assert(!seq!['~', a].is_prefix_of(t)) by {
            if seq!['~', a].is_prefix_of(t) {
                assert(t[0] == seq!['~', a][0]);
            }
        }
        assert(seq![t[0]] + t.skip(1) =~= t);
    }
}

/// A token without `~` stands for itself.
pub proof fn plain_token_stands_for_itself(t: Seq<char>)
    requires
        forall|i: int| 0 <= i < t.len() ==> #[trigger] t[i] != '~',
    ensures
        unescaped(t) == t,
{
    reveal(unescaped);
    plain_token_reads_as_it_is(t, '1', '/');
    plain_token_reads_as_it_is(t, '0', '~');
}

/// The characters up to the first `/` are the first token.
proof fn token_ends_at_slash(t: Seq<char>, rest: Seq<char>)
    requires
        forall|i: int| 0 <= i < t.len() ==> #[trigger] t[i] != '/',
        rest.len() == 0 || rest[0] == '/',
    ensures
        first_token(t + rest) == t,
    decreases t.len(),
{
    let all = t + rest;
    if t.len() == 0 {
        assert(all =~= rest);
    } else {
        assert forall|i: int| 0 <= i < t.skip(1).len() implies #[trigger] t.skip(1)[i] != '/' by {
            assert(t.skip(1)[i] == t[i + 1]);
        }
        token_ends_at_slash(t.skip(1), rest);
        assert(all[0] == t[0]);
        assert(all.skip(1) =~= t.skip(1) + rest);
        assert(seq![t[0]] + t.skip(1) =~= t);
    }
}

/// A pointer is followed step by step: what its first token selects is where the rest of it goes
/// on. The empty pointer selects the whole, and a pointer that does not begin with `/` nothing.
pub proof fn pointer_goes_step_by_step(v: JsonView, t: Seq<char>, rest: Seq<char>)
    requires
        forall|i: int| 0 <= i < t.len() ==> #[trigger] t[i] != '/',
        rest.len() == 0 || rest[0] == '/',
    ensures
        pointed(v, Seq::empty()) == Some(v),
        rest.len() > 0 ==> pointed(v, rest.update(0, '#')) is None,
        pointed(v, seq!['/'] + t + rest) == (match step(v, unescaped(t)) {
            Some(next) => pointed(next, rest),
            None => None,
        }),
{
    let p = seq!['/'] + t + rest;
    token_ends_at_slash(t, rest);
    assert(p[0] == '/');
    assert(p.skip(1) =~= t + rest);
    assert(p.skip(1 + t.len() as int) =~= rest);
    reveal_with_fuel(pointed, 2);
}

/// A token selects the member of that name in an object; in an array, a decimal number selects
/// the item that it counts to, where there is one.
pub proof fn token_selects_member_or_item(v: JsonView, t: Seq<char>, n: nat)
    ensures
        v is Object ==> step(v, t) == v.get(t),
        v is Array ==> step(v, decimal(n)) == (if n < v->Array_0.len() {
            Some(v->Array_0[n as int])
        } else {
            None
        }),
        v is Array && t.len() == 0 ==> step(v, t) is None,
        v is Array && t.len() > 0 && !('0' <= t[0] && t[0] <= '9') ==> step(v, t) is None,
        v is Array && t.len() > 1 && t[0] == '0' ==> step(v, t) is None,
        !(v is Object) && !(v is Array) ==> step(v, t) is None,
{
    decimal_counts(n);
}

/// The decimal digits of a number are digits, without a leading zero, and stand for the number.
pub proof fn decimal_counts(n: nat)
    ensures
        is_index(decimal(n)),
        index_value(decimal(n)) == n,
        decimal(n).len() > 0,
        n > 0 ==> decimal(n)[0] != '0',
    decreases n,
{
    reveal_with_fuel(index_value, 2);
    let d = decimal(n);
    assert(('0' as nat) == 48);
    if n < 10 {
        assert(d.drop_last() =~= Seq::empty());
        assert(d.last() == digit(n));
        assert(digit(n) as nat == 48 + n);
    } else {
        decimal_counts(n / 10);
        let m = n % 10;
        assert(digit(m) as nat == 48 + m);
        assert(d.drop_last() =~= decimal(n / 10));
        assert(d.last() == digit(m));
        assert(d[0] == decimal(n / 10)[0]);
        assert forall|i: int| 0 <= i < d.len() implies '0' <= #[trigger] d[i] <= '9' by {
            if i < d.len() - 1 {
                assert(d[i] == decimal(n / 10)[i]);
            }
        }
    }
}

/// In a token `~1` stands for `/` and `~0` for `~`; every other character stands for itself.
pub proof fn escapes_are_read(t: Seq<char>, c: char)
    ensures
        unescaped(Seq::empty()).len() == 0,
        c != '~' ==> unescaped(seq![c] + t) == seq![c] + unescaped(t),
        unescaped(seq!['~', '1'] + t) == seq!['/'] + unescaped(t),
        unescaped(seq!['~', '0'] + t) == seq!['~'] + unescaped(t),
{
    reveal(unescaped);
    let one = seq!['~', '1'];
    let nil = seq!['~', '0'];
    let slash = seq!['/'];
    let tilde = seq!['~'];
    let first = replace_all(t, one, slash);
    reveal_with_fuel(replace_all, 2);
    if c != '~' {
        let s = seq![c] + t;
        assert(s.skip(1) =~= t);
        assert(!one.is_prefix_of(s)) by {
            if one.is_prefix_of(s) {
                assert(s[0] == one[0]);
            }
        }
        assert(replace_all(s, one, slash) =~= seq![c] + first);
        let s2 = seq![c] + first;
        assert(s2.skip(1) =~= first);
        assert(!nil.is_prefix_of(s2)) by {
            if nil.is_prefix_of(s2) {
                assert(s2[0] == nil[0]);
            }
        }
    }
    let a = one + t;
    assert(one.is_prefix_of(a)) by {
        assert(a.subrange(0, 2) =~= one);
    }
    assert(a.skip(2) =~= t);
    assert(replace_all(a, one, slash) =~= slash + first);
    let a2 = slash + first;
    assert(a2.skip(1) =~= first);
    assert(!nil.is_prefix_of(a2)) by {
        if nil.is_prefix_of(a2) {
            assert(a2[0] == nil[0]);
        }
    }
    let b = nil + t;
    assert(!one.is_prefix_of(b)) by {
        if one.is_prefix_of(b) {
            assert(b[1] == one[1]);
        }
    }
    let b1 = b.skip(1);
    assert(b1 =~= seq!['0'] + t);
    assert(!one.is_prefix_of(b1)) by {
        if one.is_prefix_of(b1) {
            assert(b1[0] == one[0]);
        }
    }
    assert(b1.skip(1) =~= t);
    assert(replace_all(b1, one, slash) =~= seq!['0'] + first);
    assert(replace_all(b, one, slash) =~= nil + first);
    let b2 = nil + first;
    assert(nil.is_prefix_of(b2)) by {
        assert(b2.subrange(0, 2) =~= nil);
    }
    assert(b2.skip(2) =~= first);
}

// References.

/// Whether `v` refers to a place in the document, and `target` stands there.
pub open spec fn refers_to(root: JsonView, v: JsonView, target: JsonView) -> bool {
    exists|p: Seq<char>|
        #![trigger pointed(root, p)]
        v.get("$ref"@) == Some(JsonView::String(seq!['#'] + p)) && pointed(root, p) == Some(target)
}

/// Whether `v` holds no reference, or one that leads nowhere in the document.
pub open spec fn refers_nowhere(root: JsonView, v: JsonView) -> bool {
    match v.get("$ref"@) {
        Some(JsonView::String(r)) => r.len() == 0 || r[0] != '#' || pointed(root, r.skip(1)) is None,
        _ => true,
    }
}

/// What a reference resolves to.
proof fn reference_resolves(root: JsonView, v: JsonView, target: JsonView)
    ensures
        refers_to(root, v, target) ==> v.text_at("$ref"@) is Some && resolved(
            root,
            v.text_at("$ref"@)->Some_0,
        ) == Some(target),
        refers_nowhere(root, v) ==> v.text_at("$ref"@) is None || resolved(
            root,
            v.text_at("$ref"@)->Some_0,
        ) is None,
{
    reveal_strlit("#");
    assert("#"@ =~= seq!['#']);
    if refers_to(root, v, target) {
        let p = choose|p: Seq<char>|
            #![trigger pointed(root, p)]
            v.get("$ref"@) == Some(JsonView::String(seq!['#'] + p)) && pointed(root, p) == Some(
                target,
            );
        let r = seq!['#'] + p;
        assert(r.skip(1) =~= p);
        assert(r.subrange(0, 1) =~= "#"@);
        assert("#"@.is_prefix_of(r));
    }
    if let Some(JsonView::String(r)) = v.get("$ref"@) {
        if "#"@.is_prefix_of(r) {
            assert(r[0] == "#"@[0]);
        }
    }
}

/// A chain of references is walked as far as the hops reach.
proof fn chain_is_walked(root: JsonView, chain: Seq<JsonView>, hops: nat)
    requires
        0 < chain.len() <= hops + 1,
        forall|i: int|
            0 <= i < chain.len() - 1 ==> refers_to(root, #[trigger] chain[i], chain[i + 1]),
        chain.len() == hops + 1 || refers_nowhere(root, chain.last()),
    ensures
        followed(root, chain[0], hops) == chain.last(),
    decreases hops,
{
    if chain.len() == 1 {
        reference_resolves(root, chain[0], chain[0]);
    } else {
        let rest = chain.skip(1);
        assert(refers_to(root, chain[0], chain[0int + 1]));
        reference_resolves(root, chain[0], chain[1]);
        assert forall|i: int| 0 <= i < rest.len() - 1 implies refers_to(
            root,
            #[trigger] rest[i],
            rest[i + 1],
        ) by {
            assert(rest[i] == chain[i + 1]);
            assert(rest[i + 1] == chain[i + 2]);
            assert(refers_to(root, chain[i + 1], chain[i + 1 + 1]));
        }
        assert(rest.last() == chain.last());
        assert(rest[0] == chain[1]);
        chain_is_walked(root, rest, (hops - 1) as nat);
    }
}

/// References are followed from one to the next, twelve at most, to what is none or leads
/// nowhere. In a schema, what they lead to takes the place of the reference and is inlined in
/// turn; where a reference is left at the end, it stays.
pub proof fn references_are_followed(root: JsonView, chain: Seq<JsonView>, depth: nat)
    requires
        0 < chain.len() <= 13,
        forall|i: int|
            0 <= i < chain.len() - 1 ==> refers_to(root, #[trigger] chain[i], chain[i + 1]),
        chain.len() == 13 || refers_nowhere(root, chain.last()),
    ensures
        derefed(root, chain[0]) == chain.last(),
        depth < 12 && chain[0].get("$ref"@) is Some ==> inlined(root, chain[0], depth) == (
        if chain.last().get("$ref"@) is Some {
            chain.last()
        } else {
            inlined(root, chain.last(), depth + 1)
        }),
        depth >= 12 ==> inlined(root, chain[0], depth) == chain[0],
{
    chain_is_walked(root, chain, 12);
}

// Schemas.

/// The names of the members that hold schemas differ from each other and from the rest.
proof fn schema_names_differ()
    ensures
        "properties"@ != "items"@,
        "properties"@ != "allOf"@,
        "properties"@ != "anyOf"@,
        "properties"@ != "oneOf"@,
        "items"@ != "allOf"@,
        "items"@ != "anyOf"@,
        "items"@ != "oneOf"@,
        "allOf"@ != "anyOf"@,
        "allOf"@ != "oneOf"@,
        "anyOf"@ != "oneOf"@,
        "type"@ != "properties"@,
        "type"@ != "items"@,
        "type"@ != "allOf"@,
        "type"@ != "anyOf"@,
        "type"@ != "oneOf"@,
        "type"@ != "nullable"@,
        "type"@ != "$ref"@,
        "$ref"@ != "properties"@,
        "$ref"@ != "items"@,
        "$ref"@ != "allOf"@,
        "$ref"@ != "anyOf"@,
        "$ref"@ != "oneOf"@,
        "$ref"@ != "nullable"@,
        "nullable"@ != "properties"@,
        "nullable"@ != "items"@,
        "nullable"@ != "allOf"@,
        "nullable"@ != "anyOf"@,
        "nullable"@ != "oneOf"@,
{
    reveal_strlit("properties");
    reveal_strlit("items");
    reveal_strlit("allOf");
    reveal_strlit("anyOf");
    reveal_strlit("oneOf");
    reveal_strlit("type");
    reveal_strlit("nullable");
    reveal_strlit("$ref");
    assert("properties"@.len() == 10);
    assert("nullable"@.len() == 8);
    assert("type"@.len() == 4 && "type"@[0] == 't');
    assert("$ref"@.len() == 4 && "$ref"@[0] == '$');
    assert("items"@.len() == 5 && "items"@[0] == 'i');
    assert("allOf"@.len() == 5 && "allOf"@[0] == 'a' && "allOf"@[1] == 'l');
    assert("anyOf"@.len() == 5 && "anyOf"@[0] == 'a' && "anyOf"@[1] == 'n');
    assert("oneOf"@.len() == 5 && "oneOf"@[0] == 'o');
}

/// What is found in a schema once it is inlined, apart from its type.
proof fn member_after_inlining(
    root: JsonView,
    es: Seq<(Seq<char>, JsonView)>,
    depth: nat,
    k: Seq<char>,
)
    requires
        depth < 12,
        lookup(es, "$ref"@) is None,
        k != "type"@,
    ensures
        inlined(root, JsonView::Object(es), depth) is Object,
        inlined(root, JsonView::Object(es), depth).get(k) == lookup(
            inlined_members(root, es, depth),
            k,
        ),
{
    let out = inlined_members(root, es, depth);
    if let Some(t) = JsonView::Object(out).text_at("type"@) {
        lookup_with_entry(
            out,
            "type"@,
            JsonView::Array(seq![JsonView::String(t), JsonView::String("null"@)]),
            k,
        );
    }
}

/// The schemas in an `allOf`, an `anyOf` or a `oneOf` are inlined, each in its place.
pub proof fn combined_schemas_are_inlined(
    root: JsonView,
    es: Seq<(Seq<char>, JsonView)>,
    depth: nat,
    k: Seq<char>,
)
    requires
        depth < 12,
        lookup(es, "$ref"@) is None,
        k == "allOf"@ || k == "anyOf"@ || k == "oneOf"@,
    ensures
        match lookup(es, k) {
            Some(JsonView::Array(items)) => {
                &&& inlined(root, JsonView::Object(es), depth).get(k) matches Some(
                    JsonView::Array(out),
                )
                &&& out.len() == items.len()
                &&& forall|j: int|
                    0 <= j < items.len() ==> #[trigger] out[j] == inlined(
                        root,
                        items[j],
                        depth + 1,
                    )
            },
            Some(_) => inlined(root, JsonView::Object(es), depth).get(k) == Some(
                JsonView::Array(Seq::empty()),
            ),
            None => inlined(root, JsonView::Object(es), depth).get(k) is None,
        },
{
    schema_names_differ();
    member_after_inlining(root, es, depth, k);
    inlined_member_is_found(root, es, depth, k);
}

/// The schemas of the properties are inlined, each under its own name.
pub proof fn property_schemas_are_inlined(
    root: JsonView,
    es: Seq<(Seq<char>, JsonView)>,
    depth: nat,
)
    requires
        depth < 12,
        lookup(es, "$ref"@) is None,
    ensures
        match lookup(es, "properties"@) {
            Some(JsonView::Object(ps)) => {
                &&& inlined(root, JsonView::Object(es), depth).get("properties"@) matches Some(
                    JsonView::Object(out),
                )
                &&& out.len() == ps.len()
                &&& forall|j: int|
                    0 <= j < ps.len() ==> #[trigger] out[j] == (
                        ps[j].0,
                        inlined(root, ps[j].1, depth + 1),
                    )
            },
            Some(_) => inlined(root, JsonView::Object(es), depth).get("properties"@) == Some(
                JsonView::Object(Seq::empty()),
            ),
            None => inlined(root, JsonView::Object(es), depth).get("properties"@) is None,
        },
{
    schema_names_differ();
    member_after_inlining(root, es, depth, "properties"@);
    inlined_member_is_found(root, es, depth, "properties"@);
}

/// The schema of the items is inlined.
pub proof fn item_schema_is_inlined(root: JsonView, es: Seq<(Seq<char>, JsonView)>, depth: nat)
    requires
        depth < 12,
        lookup(es, "$ref"@) is None,
    ensures
        match lookup(es, "items"@) {
            Some(v) => inlined(root, JsonView::Object(es), depth).get("items"@) == Some(
                inlined(root, v, depth + 1),
            ),
            None => inlined(root, JsonView::Object(es), depth).get("items"@) is None,
        },
{
    schema_names_differ();
    member_after_inlining(root, es, depth, "items"@);
    inlined_member_is_found(root, es, depth, "items"@);
}

/// Of a schema's other members only `nullable` goes, into the type: a single type that is
/// nullable becomes the pair of it and `null`. All else stays as it is, and nothing is added.
pub proof fn other_members_stay(
    root: JsonView,
    es: Seq<(Seq<char>, JsonView)>,
    depth: nat,
    k: Seq<char>,
)
    requires
        depth < 12,
        lookup(es, "$ref"@) is None,
        k != "properties"@,
        k != "items"@,
        k != "allOf"@,
        k != "anyOf"@,
        k != "oneOf"@,
    ensures
        inlined(root, JsonView::Object(es), depth) is Object,
        ({
            let now = inlined(root, JsonView::Object(es), depth).get(k);
            if k == "nullable"@ {
                now is None
            } else if k == "type"@ && lookup(es, "nullable"@) == Some(JsonView::Bool(true)) {
                match lookup(es, "type"@) {
                    Some(JsonView::String(t)) => now == Some(
                        JsonView::Array(
                            seq![
                                JsonView::String(t),
                                JsonView::String(seq!['n', 'u', 'l', 'l']),
                            ],
                        ),
                    ),
                    other => now == other,
                }
            } else {
                now == lookup(es, k)
            }
        }),
{
    schema_names_differ();
    reveal_strlit("null");
    assert("null"@ =~= seq!['n', 'u', 'l', 'l']);
    inlined_member_is_found(root, es, depth, k);
    if k == "type"@ {
        let out = inlined_members(root, es, depth);
        if let Some(t) = JsonView::Object(out).text_at("type"@) {
            lookup_with_entry(
                out,
                "type"@,
                JsonView::Array(seq![JsonView::String(t), JsonView::String("null"@)]),
                k,
            );
        }
    } else {
        member_after_inlining(root, es, depth, k);
    }
}

/// A value that is no object, and so no schema with members, is left as it is.
pub proof fn other_values_stay(root: JsonView, v: JsonView, depth: nat)
    requires
        !(v is Object),
    ensures
        inlined(root, v, depth) == v,
        derefed(root, v) == v,
{
}

/// A reference among the schemas of an `allOf`, an `anyOf` or a `oneOf` gives way to the schema
/// that it leads to: no reference is left in its place.
pub proof fn combined_reference_gives_way(
    root: JsonView,
    es: Seq<(Seq<char>, JsonView)>,
    depth: nat,
    k: Seq<char>,
    items: Seq<JsonView>,
    j: int,
    target: Seq<(Seq<char>, JsonView)>,
)
    requires
        depth < 11,
        lookup(es, "$ref"@) is None,
        k == "allOf"@ || k == "anyOf"@ || k == "oneOf"@,
        lookup(es, k) == Some(JsonView::Array(items)),
        0 <= j < items.len(),
        refers_to(root, items[j], JsonView::Object(target)),
        lookup(target, "$ref"@) is None,
    ensures
        ({
            let now = inlined(root, JsonView::Object(es), depth).get(k)->Some_0->Array_0[j];
            now == inlined(root, JsonView::Object(target), depth + 2) && now.get("$ref"@) is None
        }),
{
    combined_schemas_are_inlined(root, es, depth, k);
    let to = JsonView::Object(target);
    references_are_followed(root, seq![items[j], to], depth + 1);
    if depth + 2 < 12 {
        schema_names_differ();
        other_members_stay(root, target, depth + 2, "$ref"@);
    }
}

}
