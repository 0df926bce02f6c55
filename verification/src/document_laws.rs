//! What is read from a document, told from its members alone: the operations, their parameters,
//! bodies and answers, and the security that they ask for.
use crate::config::SpecSource;
use crate::document::{
    auth_names, body_planned, declared_schemes, derefed, document_in, document_operations,
    document_schemes, first_success, inlined, item_operations, keys_declared, loaded, method_of,
    methods, operation_at, output_planned, param_key, params_planned, path_operations, plan_of,
    plan_under, planned, scheme_declared, SecuritySchemeView,
};
use crate::inline_laws::{plain_token_stands_for_itself, pointer_goes_step_by_step};
use crate::json::{pointed, JsonView};
use crate::laws::{declared_key_is_listed, lookup_behind};
use crate::operation::OperationMetaView;
use crate::plan::{location_named, texts_in, OperationPlanView, ParamPlanView};
use crate::request_laws::rising;
use crate::text::{before, before_is_total, lower, lower_char, occurrences, upper};
use crate::text_map::{ascending, lookup, lookup_finds_entry};
use vstd::prelude::*;

verus! {

// Security.

/// An operation is secured by the names of its first security requirement, in order. Where it has
/// no list of requirements of its own, that is the first of the document's.
pub proof fn first_requirement_is_applied(
    root: JsonView,
    op: JsonView,
    items: Seq<JsonView>,
    es: Seq<(Seq<char>, JsonView)>,
)
    requires
        op.get("security"@) == Some(JsonView::Array(items)) || (op.get("security"@) is None
            && root.get("security"@) == Some(JsonView::Array(items))),
        items.len() > 0,
        items[0] == JsonView::Object(es),
    ensures
        auth_names(root, op).len() == es.len(),
        forall|j: int| 0 <= j < es.len() ==> #[trigger] auth_names(root, op)[j] == es[j].0,
{
}

/// Without a security requirement an operation is sent without credentials: where neither it nor
/// the document has a list, where the list is empty or no list at all, or where its first
/// requirement is no object.
pub proof fn no_requirement_applies_nothing(root: JsonView, op: JsonView)
    requires
        match op.get("security"@) {
            Some(JsonView::Array(items)) => items.len() == 0 || !(items[0] is Object),
            Some(_) => true,
            None => match root.get("security"@) {
                Some(JsonView::Array(items)) => items.len() == 0 || !(items[0] is Object),
                _ => true,
            },
        },
    ensures
        auth_names(root, op).len() == 0,
{
}

/// Whether two texts are the same but for the case of ASCII letters.
pub open spec fn same_but_for_case(a: Seq<char>, b: Seq<char>) -> bool {
    &&& a.len() == b.len()
    &&& forall|i: int|
        0 <= i < a.len() ==> {
            ||| #[trigger] a[i] == b[i]
            ||| 'A' <= a[i] && a[i] <= 'Z' && b[i] as int == a[i] as int + 32
            ||| 'A' <= b[i] && b[i] <= 'Z' && a[i] as int == b[i] as int + 32
        }
}

/// In lower case two texts are the same exactly where they differ in the case of ASCII letters
/// alone.
pub proof fn lower_case_ignores_case(a: Seq<char>, b: Seq<char>)
    ensures
        lower(a) == lower(b) <==> same_but_for_case(a, b),
        lower(a).len() == a.len(),
        forall|i: int|
            0 <= i < a.len() ==> !('A' <= #[trigger] lower(a)[i] && lower(a)[i] <= 'Z'),
{
    if lower(a) == lower(b) {
        assert(lower(a).len() == lower(b).len());
        assert forall|i: int| 0 <= i < a.len() implies {
            ||| #[trigger] a[i] == b[i]
            ||| 'A' <= a[i] && a[i] <= 'Z' && b[i] as int == a[i] as int + 32
            ||| 'A' <= b[i] && b[i] <= 'Z' && a[i] as int == b[i] as int + 32
        } by {
            assert(lower(a)[i] == lower_char(a[i]));
            assert(lower(b)[i] == lower_char(b[i]));
        }
    }
    if same_but_for_case(a, b) {
        assert forall|i: int| 0 <= i < a.len() implies #[trigger] lower(a)[i] == lower(b)[i] by {
            assert(lower(a)[i] == lower_char(a[i]));
            assert(lower(b)[i] == lower_char(b[i]));
            assert(a[i] == a[i]);
        }
        assert(lower(a) =~= lower(b));
    }
}

/// Whether a definition is of the given type.
pub open spec fn of_type(def: JsonView, kind: Seq<char>) -> bool {
    def.get("type"@) == Some(JsonView::String(kind))
}

/// A security scheme is what its definition says. An `apiKey` goes into the query or, unless it
/// says otherwise, into a header, under its name; `http` is bearer or basic, in any case;
/// `oauth2` and `openIdConnect` are bearer; and nothing else is supported.
pub proof fn scheme_is_what_its_definition_says(def: JsonView)
    ensures
        of_type(def, "apiKey"@) && def.get("in"@) == Some(JsonView::String("query"@))
            ==> scheme_declared(def) == (SecuritySchemeView::ApiKeyQuery {
            name: match def.get("name"@) {
                Some(JsonView::String(s)) => s,
                _ => Seq::empty(),
            },
        }),
        of_type(def, "apiKey"@) && (def.get("in"@) == Some(JsonView::String("header"@)) || !(
        def.get("in"@) matches Some(JsonView::String(_)))) ==> scheme_declared(def) == (
        SecuritySchemeView::ApiKeyHeader {
            name: match def.get("name"@) {
                Some(JsonView::String(s)) => s,
                _ => Seq::empty(),
            },
        }),
        of_type(def, "apiKey"@) && def.text_at("in"@) is Some && def.text_at("in"@) != Some(
            "query"@,
        ) && def.text_at("in"@) != Some("header"@) ==> scheme_declared(def)
            == SecuritySchemeView::Unsupported,
        of_type(def, "http"@) ==> match def.get("scheme"@) {
            Some(JsonView::String(s)) => {
                &&& scheme_declared(def) == SecuritySchemeView::Bearer <==> same_but_for_case(
                    s,
                    "bearer"@,
                )
                &&& scheme_declared(def) == SecuritySchemeView::Basic <==> same_but_for_case(
                    s,
                    "basic"@,
                )
                &&& !same_but_for_case(s, "bearer"@) && !same_but_for_case(s, "basic"@)
                    ==> scheme_declared(def) == SecuritySchemeView::Unsupported
            },
            _ => scheme_declared(def) == SecuritySchemeView::Unsupported,
        },
        of_type(def, "oauth2"@) || of_type(def, "openIdConnect"@) ==> scheme_declared(def)
            == SecuritySchemeView::Bearer,
        !of_type(def, "apiKey"@) && !of_type(def, "http"@) && !of_type(def, "oauth2"@) && !of_type(
            def,
            "openIdConnect"@,
        ) ==> scheme_declared(def) == SecuritySchemeView::Unsupported,
{
    reveal_strlit("apiKey");
    reveal_strlit("http");
    reveal_strlit("oauth2");
    reveal_strlit("openIdConnect");
    reveal_strlit("query");
    reveal_strlit("header");
    reveal_strlit("bearer");
    reveal_strlit("basic");
    assert("apiKey"@.len() == 6 && "apiKey"@[0] == 'a');
    assert("oauth2"@.len() == 6 && "oauth2"@[0] == 'o');
    assert("http"@.len() == 4);
    assert("openIdConnect"@.len() == 13);
    assert("query"@.len() == 5 && "header"@.len() == 6);
    assert("bearer"@.len() == 6 && "basic"@.len() == 5);
    assert(lower("bearer"@) =~= "bearer"@);
    assert(lower("basic"@) =~= "basic"@);
    if let Some(JsonView::String(s)) = def.get("scheme"@) {
        lower_case_ignores_case(s, "bearer"@);
        lower_case_ignores_case(s, "basic"@);
        assert(lower(s).len() == s.len());
    }
}

/// What is found among the declared schemes.
proof fn declared_scheme_is_found(root: JsonView, es: Seq<(Seq<char>, JsonView)>, q: Seq<char>)
    requires
        ascending(es),
    ensures
        lookup(declared_schemes(root, es), q) == (match lookup(es, q) {
            Some(v) => if derefed(root, v) is Object {
                Some(scheme_declared(derefed(root, v)))
            } else {
                None
            },
            None => None,
        }),
    decreases es.len(),
{
    if es.len() > 0 {
        let init = es.drop_last();
        let last = es.last();
        assert forall|i: int, j: int| 0 <= i < j < init.len() implies before(
            #[trigger] init[i].0,
            #[trigger] init[j].0,
        ) by {
            assert(init[i] == es[i] && init[j] == es[j]);
        }
        declared_scheme_is_found(root, init, q);
        lookup_behind(init, last.0, last.1, q);
        assert(init.push((last.0, last.1)) =~= es);
        let def = derefed(root, last.1);
        if def is Object {
            lookup_behind(declared_schemes(root, init), last.0, scheme_declared(def), q);
        }
        if q == last.0 {
            lookup_finds_entry(init, q);
            if let Some(v) = lookup(init, q) {
                let j = choose|j: int| 0 <= j < init.len() && #[trigger] init[j] == (q, v);
                before_is_total(q, q);
                assert(init[j] == es[j]);
                assert(before(es[j].0, es[es.len() - 1].0));
            }
        }
    }
}

/// The security schemes of a document are those under `securitySchemes` in its `components`, each
/// by its own name; a definition that is no object is none.
pub proof fn schemes_are_the_components(
    root: JsonView,
    components: JsonView,
    es: Seq<(Seq<char>, JsonView)>,
    q: Seq<char>,
)
    requires
        root.get("components"@) == Some(components),
        components.get("securitySchemes"@) == Some(JsonView::Object(es)),
        ascending(es),
    ensures
        lookup(document_schemes(root), q) == (match lookup(es, q) {
            Some(v) => if derefed(root, v) is Object {
                Some(scheme_declared(derefed(root, v)))
            } else {
                None
            },
            None => None,
        }),
{
    schemes_pointer(root);
    declared_scheme_is_found(root, es, q);
}

/// A document without `securitySchemes` in its `components` has no security schemes.
pub proof fn no_components_no_schemes(root: JsonView)
    requires
        root is Object,
        match root.get("components"@) {
            Some(JsonView::Object(cs)) => !(lookup(cs, "securitySchemes"@) matches Some(
                JsonView::Object(_),
            )),
            Some(JsonView::Array(_)) => false,
            _ => true,
        },
    ensures
        document_schemes(root).len() == 0,
{
    schemes_pointer(root);
}

/// Where the pointer to the schemes leads.
proof fn schemes_pointer(root: JsonView)
    requires
        root is Object,
    ensures
        match root.get("components"@) {
            Some(JsonView::Object(cs)) => pointed(root, "/components/securitySchemes"@) == lookup(
                cs,
                "securitySchemes"@,
            ),
            Some(JsonView::Array(_)) => true,
            _ => pointed(root, "/components/securitySchemes"@) is None,
        },
{
    reveal_strlit("/components/securitySchemes");
    reveal_strlit("components");
    reveal_strlit("securitySchemes");
    let a = "components"@;
    let b = "securitySchemes"@;
    let rest = seq!['/'] + b;
    assert("/components/securitySchemes"@ =~= seq!['/'] + a + rest);
    assert(rest =~= seq!['/'] + b + Seq::empty());
    assert forall|i: int| 0 <= i < a.len() implies #[trigger] a[i] != '/' && a[i] != '~' by {}
    assert forall|i: int| 0 <= i < b.len() implies #[trigger] b[i] != '/' && b[i] != '~' by {}
    plain_token_stands_for_itself(a);
    plain_token_stands_for_itself(b);
    pointer_goes_step_by_step(root, a, rest);
    if let Some(c) = root.get(a) {
        pointer_goes_step_by_step(c, b, Seq::empty());
        if let Some(v) = c.get(b) {
            pointer_goes_step_by_step(v, b, Seq::empty());
        }
    }
}

// Operations.

/// The methods under which a path item carries operations, in the order in which they are taken.
pub open spec fn verbs() -> Seq<Seq<char>> {
    seq!["get"@, "put"@, "post"@, "delete"@, "patch"@, "head"@, "options"@]
}

/// Whether a path item carries an operation with the given name under the given method.
pub open spec fn carries(item: JsonView, verb: Seq<char>, id: Seq<char>) -> bool {
    item.get(verb) matches Some(op) && op.get("operationId"@) == Some(JsonView::String(id))
}

/// Whether `meta` is what a path item says of the operation under `verb`.
pub open spec fn is_told_by(
    meta: OperationMetaView,
    path: Seq<char>,
    item: JsonView,
    verb: Seq<char>,
) -> bool {
    &&& carries(item, verb, meta.operation_id)
    &&& meta.method == verb
    &&& meta.path == path
    &&& meta.path_param_count == occurrences(path, '{')
    &&& meta.tags == (match item.get(verb)->Some_0.get("tags"@) {
        Some(JsonView::Array(items)) => texts_in(items),
        _ => Seq::empty(),
    })
    &&& meta.summary == (match item.get(verb)->Some_0.get("summary"@) {
        Some(JsonView::String(s)) => Some(s),
        _ => None,
    })
    &&& meta.description == (match item.get(verb)->Some_0.get("description"@) {
        Some(JsonView::String(s)) => Some(s),
        _ => None,
    })
}

/// A character more at the end counts where it is the one that is counted.
pub proof fn occurrences_are_counted(s: Seq<char>, d: char, c: char)
    ensures
        occurrences(Seq::empty(), c) == 0,
        occurrences(s.push(d), c) == occurrences(s, c) + if d == c {
            1int
        } else {
            0int
        },
{
    assert(s.push(d).drop_last() =~= s);
}

/// Whether one place in the paths, a path and a method, comes before another.
pub open spec fn earlier(a: (int, int), b: (int, int)) -> bool {
    a.0 < b.0 || (a.0 == b.0 && a.1 < b.1)
}

/// The places that the operations of one path item come from.
proof fn item_places(path: Seq<char>, item: JsonView, n: int) -> (ix: Seq<int>)
    requires
        0 <= n <= 7,
    ensures
        rising(ix, n),
        ix.len() == item_operations(path, item, n).len(),
        forall|k: int|
            0 <= k < ix.len() ==> is_told_by(
                item_operations(path, item, n)[k],
                path,
                item,
                verbs()[#[trigger] ix[k]],
            ),
        forall|m: int|
            0 <= m < n && (exists|id: Seq<char>| #[trigger] carries(item, verbs()[m], id))
                ==> #[trigger] ix.contains(m),
    decreases n,
{
    assert(verbs() =~= methods());
    if n == 0 {
        Seq::empty()
    } else {
        let done = item_places(path, item, n - 1);
        let all = item_operations(path, item, n);
        let verb = verbs()[n - 1];
        let ix = match operation_at(path, item, verb) {
            Some(op) => done.push(n - 1),
            None => done,
        };
        assert forall|k: int| 0 <= k < ix.len() implies is_told_by(
            all[k],
            path,
            item,
            verbs()[#[trigger] ix[k]],
        ) by {
            if k < done.len() {
                assert(ix[k] == done[k]);
                assert(all[k] == item_operations(path, item, n - 1)[k]);
            }
        }
        assert forall|m: int|
            0 <= m < n && (exists|id: Seq<char>| #[trigger] carries(item, verbs()[m], id))
                implies #[trigger] ix.contains(m) by {
            if m < n - 1 {
                assert(done.contains(m));
                let k = choose|k: int| 0 <= k < done.len() && done[k] == m;
                assert(ix[k] == m);
            } else {
                let id = choose|id: Seq<char>| #[trigger] carries(item, verbs()[m], id);
                assert(operation_at(path, item, verb) is Some);
                assert(ix[ix.len() - 1] == m);
            }
        }
        ix
    }
}

/// The places that the operations under the first `n` paths come from.
proof fn path_places(paths: Seq<(Seq<char>, JsonView)>, n: int) -> (at: Seq<(int, int)>)
    requires
        0 <= n <= paths.len(),
    ensures
        at.len() == path_operations(paths, n).len(),
        forall|k: int|
            0 <= k < at.len() ==> 0 <= (#[trigger] at[k]).0 < n && 0 <= at[k].1 < 7 && is_told_by(
                path_operations(paths, n)[k],
                paths[at[k].0].0,
                paths[at[k].0].1,
                verbs()[at[k].1],
            ),
        forall|a: int, b: int| 0 <= a < b < at.len() ==> earlier(#[trigger] at[a], #[trigger] at[b]),
        forall|p: int, m: int|
            0 <= p < n && 0 <= m < 7 && (exists|id: Seq<char>| #[trigger]
                carries(paths[p].1, verbs()[m], id)) ==> #[trigger] at.contains((p, m)),
    decreases n,
{
    if n == 0 {
        Seq::empty()
    } else {
        let done = path_places(paths, n - 1);
        let (path, item) = paths[n - 1];
        assert(verbs() =~= methods());
        let ix = item_places(path, item, 7);
        let more = Seq::new(ix.len(), |k: int| (n - 1, ix[k]));
        let at = done + more;
        let all = path_operations(paths, n);
        let own = item_operations(path, item, 7);
        let old = path_operations(paths, n - 1);
        assert(all == old + own);
        assert forall|k: int| 0 <= k < at.len() implies 0 <= (#[trigger] at[k]).0 < n && 0
            <= at[k].1 < 7 && is_told_by(
            all[k],
            paths[at[k].0].0,
            paths[at[k].0].1,
            verbs()[at[k].1],
        ) by {
            if k < done.len() {
                assert(at[k] == done[k]);
                assert(all[k] == old[k]);
            } else {
                let j = k - done.len();
                assert(at[k] == (n - 1, ix[j]));
                assert(all[k] == own[j]);
            }
        }
        assert forall|a: int, b: int| 0 <= a < b < at.len() implies earlier(
            #[trigger] at[a],
            #[trigger] at[b],
        ) by {
            if b < done.len() {
                assert(at[a] == done[a] && at[b] == done[b]);
            } else if a < done.len() {
                assert(at[a] == done[a]);
                assert(at[b] == (n - 1, ix[b - done.len()]));
            } else {
                assert(at[a] == (n - 1, ix[a - done.len()]));
                assert(at[b] == (n - 1, ix[b - done.len()]));
            }
        }
        assert forall|p: int, m: int|
            0 <= p < n && 0 <= m < 7 && (exists|id: Seq<char>| #[trigger]
                carries(paths[p].1, verbs()[m], id)) implies #[trigger] at.contains((p, m)) by {
            if p < n - 1 {
                assert(done.contains((p, m)));
                let k = choose|k: int| 0 <= k < done.len() && done[k] == (p, m);
                assert(at[k] == (p, m));
            } else {
                assert(ix.contains(m));
                let k = choose|k: int| 0 <= k < ix.len() && ix[k] == m;
                assert(more[k] == (p, m));
                assert(at[done.len() + k] == (p, m));
            }
        }
        at
    }
}

/// The operations of a document are those that its paths carry with an `operationId`, each told
/// by its own members: path by path, and under a path in the order of the methods. None is left
/// out and none is listed twice.
pub proof fn every_named_operation_is_listed(
    root: JsonView,
    paths: Seq<(Seq<char>, JsonView)>,
) -> (at: Seq<(int, int)>)
    requires
        root.get("paths"@) == Some(JsonView::Object(paths)),
    ensures
        at.len() == document_operations(root).len(),
        forall|k: int|
            0 <= k < at.len() ==> 0 <= (#[trigger] at[k]).0 < paths.len() && 0 <= at[k].1 < 7
                && is_told_by(
                document_operations(root)[k],
                paths[at[k].0].0,
                paths[at[k].0].1,
                verbs()[at[k].1],
            ),
        forall|a: int, b: int| 0 <= a < b < at.len() ==> earlier(#[trigger] at[a], #[trigger] at[b]),
        forall|p: int, m: int|
            0 <= p < paths.len() && 0 <= m < 7 && (exists|id: Seq<char>| #[trigger]
                carries(paths[p].1, verbs()[m], id)) ==> #[trigger] at.contains((p, m)),
{
    path_places(paths, paths.len() as int)
}

/// A document whose `paths` are no object has no operations.
pub proof fn no_paths_no_operations(root: JsonView)
    requires
        !(root.get("paths"@) matches Some(JsonView::Object(_))),
    ensures
        document_operations(root).len() == 0,
        forall|id: Seq<char>| #[trigger] plan_of(root, id) == Err::<OperationPlanView, Seq<char>>(
            "spec has no `paths` object"@,
        ),
{
}

/// The first method under which a path item carries an operation.
proof fn first_method_is_found(item: JsonView, id: Seq<char>, n: int, m: int)
    requires
        0 <= n <= m <= 7,
        forall|k: int| n <= k < m ==> !carries(item, #[trigger] verbs()[k], id),
        m < 7 ==> carries(item, verbs()[m], id),
    ensures
        method_of(item, id, n) == (if m < 7 {
            Some(m)
        } else {
            None
        }),
    decreases m - n,
{
    assert(verbs() =~= methods());
    if n < m {
        assert(!carries(item, verbs()[n], id));
        first_method_is_found(item, id, n + 1, m);
    }
}

/// The plan found under the paths is of the first operation of its name.
proof fn first_plan_is_found(
    root: JsonView,
    paths: Seq<(Seq<char>, JsonView)>,
    id: Seq<char>,
    p: int,
    m: int,
)
    requires
        0 <= p < paths.len(),
        0 <= m < 7,
        carries(paths[p].1, verbs()[m], id),
        forall|k: int| 0 <= k < m ==> !carries(paths[p].1, #[trigger] verbs()[k], id),
        forall|q: int, k: int|
            #![trigger paths[q], verbs()[k]]
            0 <= q < p && 0 <= k < 7 ==> !carries(paths[q].1, verbs()[k], id),
    ensures
        plan_under(root, paths, id) == Some(
            planned(
                root,
                id,
                verbs()[m],
                paths[p].0,
                paths[p].1,
                paths[p].1.get(verbs()[m])->Some_0,
            ),
        ),
    decreases paths.len(),
{
    assert(verbs() =~= methods());
    if p == 0 {
        first_method_is_found(paths[0].1, id, 0, m);
    } else {
        assert forall|k: int| 0 <= k < 7 implies !carries(
            paths[0].1,
            #[trigger] verbs()[k],
            id,
        ) by {}
        first_method_is_found(paths[0].1, id, 0, 7);
        let rest = paths.skip(1);
        assert(rest[p - 1] == paths[p]);
        assert forall|q: int, k: int|
            #![trigger rest[q], verbs()[k]]
            0 <= q < p - 1 && 0 <= k < 7 implies !carries(rest[q].1, verbs()[k], id) by {
            assert(rest[q] == paths[q + 1]);
        }
        first_plan_is_found(root, rest, id, p - 1, m);
    }
}

/// No plan is found where no path carries the operation.
proof fn no_plan_is_found(root: JsonView, paths: Seq<(Seq<char>, JsonView)>, id: Seq<char>)
    requires
        forall|q: int, k: int|
            #![trigger paths[q], verbs()[k]]
            0 <= q < paths.len() && 0 <= k < 7 ==> !carries(paths[q].1, verbs()[k], id),
    ensures
        plan_under(root, paths, id) is None,
    decreases paths.len(),
{
    if paths.len() > 0 {
        assert forall|k: int| 0 <= k < 7 implies !carries(
            paths[0].1,
            #[trigger] verbs()[k],
            id,
        ) by {}
        first_method_is_found(paths[0].1, id, 0, 7);
        let rest = paths.skip(1);
        assert forall|q: int, k: int|
            #![trigger rest[q], verbs()[k]]
            0 <= q < rest.len() && 0 <= k < 7 implies !carries(rest[q].1, verbs()[k], id) by {
            assert(rest[q] == paths[q + 1]);
        }
        no_plan_is_found(root, rest, id);
    }
}

/// An operation is planned by its name from the first place that carries it, and a name that no
/// path carries has no plan.
pub proof fn first_operation_of_a_name_is_planned(
    root: JsonView,
    paths: Seq<(Seq<char>, JsonView)>,
    id: Seq<char>,
    p: int,
    m: int,
)
    requires
        root.get("paths"@) == Some(JsonView::Object(paths)),
        0 <= p <= paths.len(),
        p < paths.len() ==> 0 <= m < 7 && carries(paths[p].1, verbs()[m], id),
        p < paths.len() ==> forall|k: int|
            0 <= k < m ==> !carries(paths[p].1, #[trigger] verbs()[k], id),
        forall|q: int, k: int|
            #![trigger paths[q], verbs()[k]]
            0 <= q < p && 0 <= k < 7 ==> !carries(paths[q].1, verbs()[k], id),
    ensures
        plan_of(root, id) == (if p < paths.len() {
            Ok(
                planned(
                    root,
                    id,
                    verbs()[m],
                    paths[p].0,
                    paths[p].1,
                    paths[p].1.get(verbs()[m])->Some_0,
                ),
            )
        } else {
            Err("operationId '"@ + id + "' not found in spec"@)
        }),
{
    if p < paths.len() {
        first_plan_is_found(root, paths, id, p, m);
    } else {
        no_plan_is_found(root, paths, id);
    }
}

/// A plan carries the name and the path of its operation, and its method in capitals.
pub proof fn plan_carries_name_path_and_method(
    root: JsonView,
    id: Seq<char>,
    m: int,
    path: Seq<char>,
    item: JsonView,
    op: JsonView,
)
    requires
        0 <= m < 7,
    ensures
        planned(root, id, verbs()[m], path, item, op).operation_id == id,
        planned(root, id, verbs()[m], path, item, op).path_template == path,
        planned(root, id, verbs()[m], path, item, op).method == seq![
            "GET"@,
            "PUT"@,
            "POST"@,
            "DELETE"@,
            "PATCH"@,
            "HEAD"@,
            "OPTIONS"@,
        ][m],
        planned(root, id, verbs()[m], path, item, op).auth_schemes == auth_names(root, op),
        planned(root, id, verbs()[m], path, item, op).body == body_planned(root, op),
        planned(root, id, verbs()[m], path, item, op).output_schema == output_planned(root, op),
{
    reveal_strlit("get");
    reveal_strlit("put");
    reveal_strlit("post");
    reveal_strlit("delete");
    reveal_strlit("patch");
    reveal_strlit("head");
    reveal_strlit("options");
    reveal_strlit("GET");
    reveal_strlit("PUT");
    reveal_strlit("POST");
    reveal_strlit("DELETE");
    reveal_strlit("PATCH");
    reveal_strlit("HEAD");
    reveal_strlit("OPTIONS");
    assert(upper("get"@) =~= "GET"@);
    assert(upper("put"@) =~= "PUT"@);
    assert(upper("post"@) =~= "POST"@);
    assert(upper("delete"@) =~= "DELETE"@);
    assert(upper("patch"@) =~= "PATCH"@);
    assert(upper("head"@) =~= "HEAD"@);
    assert(upper("options"@) =~= "OPTIONS"@);
}

// Bodies and answers.

/// The schema that a request body or a response has for JSON.
pub open spec fn schema_for_json(v: JsonView) -> Option<JsonView> {
    match v.get("content"@) {
        Some(content) => match content.get("application/json"@) {
            Some(media) => media.get("schema"@),
            None => None,
        },
        None => None,
    }
}

/// An operation takes a body where its `requestBody` has a schema for JSON. The body has that
/// schema, inlined, and is required where it says so.
pub proof fn body_is_the_json_request_body(root: JsonView, op: JsonView)
    ensures
        match op.get("requestBody"@) {
            None => body_planned(root, op) is None,
            Some(raw) => {
                let body = derefed(root, raw);
                match schema_for_json(body) {
                    None => body_planned(root, op) is None,
                    Some(schema) => {
                        &&& body_planned(root, op) is Some
                        &&& body_planned(root, op)->Some_0.schema == inlined(root, schema, 0)
                        &&& body_planned(root, op)->Some_0.required <==> body.get("required"@)
                            == Some(JsonView::Bool(true))
                    },
                }
            },
        },
{
}

/// The schema for JSON of a response, where its status is a success.
pub open spec fn success_schema(root: JsonView, e: (Seq<char>, JsonView)) -> Option<JsonView> {
    if e.0.len() > 0 && e.0[0] == '2' {
        schema_for_json(derefed(root, e.1))
    } else {
        None
    }
}

/// The first success among the responses.
proof fn first_success_is_found(root: JsonView, es: Seq<(Seq<char>, JsonView)>, j: int)
    requires
        0 <= j <= es.len(),
        forall|i: int| 0 <= i < j ==> success_schema(root, #[trigger] es[i]) is None,
        j < es.len() ==> success_schema(root, es[j]) is Some,
    ensures
        first_success(root, es) == (if j < es.len() {
            Some(inlined(root, success_schema(root, es[j])->Some_0, 0))
        } else {
            None
        }),
    decreases es.len(),
{
    if j > 0 {
        assert(success_schema(root, es[0]) is None);
        let rest = es.skip(1);
        assert forall|i: int| 0 <= i < j - 1 implies success_schema(
            root,
            #[trigger] rest[i],
        ) is None by {
            assert(rest[i] == es[i + 1]);
        }
        if j < es.len() {
            assert(rest[j - 1] == es[j]);
        }
        first_success_is_found(root, rest, j - 1);
    }
}

/// The output schema of an operation is that of its first success response, in the order of the
/// statuses, that has one for JSON.
pub proof fn output_is_of_the_lowest_success(
    root: JsonView,
    op: JsonView,
    raw: JsonView,
    es: Seq<(Seq<char>, JsonView)>,
    j: int,
)
    requires
        op.get("responses"@) == Some(raw),
        derefed(root, raw) == JsonView::Object(es),
        0 <= j <= es.len(),
        forall|i: int| 0 <= i < j ==> success_schema(root, #[trigger] es[i]) is None,
        j < es.len() ==> success_schema(root, es[j]) is Some,
    ensures
        output_planned(root, op) == (if j < es.len() {
            Some(inlined(root, success_schema(root, es[j])->Some_0, 0))
        } else {
            None
        }),
{
    first_success_is_found(root, es, j);
}

// Parameters.

/// Whether a parameter is declared with the given name and `in`.
pub open spec fn declares(
    root: JsonView,
    raw: JsonView,
    name: Seq<char>,
    place: Seq<char>,
) -> bool {
    &&& derefed(root, raw).get("name"@) == Some(JsonView::String(name))
    &&& derefed(root, raw).get("in"@) == Some(JsonView::String(place))
}

/// Whether two parameters are declared with the same name and `in`.
pub open spec fn declared_alike(root: JsonView, a: JsonView, b: JsonView) -> bool {
    exists|name: Seq<char>, place: Seq<char>|
        #![trigger declares(root, a, name, place)]
        declares(root, a, name, place) && declares(root, b, name, place)
}

/// Whether `p` is what the definition of a parameter says.
pub open spec fn is_defined_by(root: JsonView, p: ParamPlanView, raw: JsonView) -> bool {
    let def = derefed(root, raw);
    &&& def.get("name"@) == Some(JsonView::String(p.name))
    &&& def.get("in"@) matches Some(JsonView::String(place)) && p.location == location_named(place)
    &&& p.required <==> def.get("required"@) == Some(JsonView::Bool(true))
    &&& p.description == (match def.get("description"@) {
        Some(JsonView::String(s)) => Some(s),
        _ => None,
    })
    &&& p.schema == (match def.get("schema"@) {
        Some(schema) => inlined(root, schema, 0),
        None => JsonView::Object(Seq::empty()),
    })
}

/// Whether parameter `j` of a list comes into the plan: it is declared, no parameter before it is
/// declared alike, and none of `others` is.
pub open spec fn comes_into_plan(
    root: JsonView,
    raws: Seq<JsonView>,
    others: Seq<JsonView>,
    j: int,
) -> bool {
    &&& exists|name: Seq<char>, place: Seq<char>| #[trigger] declares(root, raws[j], name, place)
    &&& forall|k: int| 0 <= k < j ==> !declared_alike(root, raws[j], #[trigger] raws[k])
    &&& forall|k: int| 0 <= k < others.len() ==> !declared_alike(root, raws[j], #[trigger] others[k])
}

/// A key is declared in a list exactly where one of its parameters is declared with it.
proof fn key_is_declared(root: JsonView, raws: Seq<JsonView>, key: (Seq<char>, Seq<char>))
    ensures
        keys_declared(root, raws).contains(key) <==> exists|k: int|
            0 <= k < raws.len() && declares(root, #[trigger] raws[k], key.0, key.1),
    decreases raws.len(),
{
    let all = keys_declared(root, raws);
    if exists|k: int| 0 <= k < raws.len() && declares(root, #[trigger] raws[k], key.0, key.1) {
        let k = choose|k: int|
            0 <= k < raws.len() && declares(root, #[trigger] raws[k], key.0, key.1);
        assert(param_key(root, raws[k]) == Some(key));
        declared_key_is_listed(root, raws, k);
    }
    if all.contains(key) {
        let init = raws.drop_last();
        let done = keys_declared(root, init);
        key_is_declared(root, init, key);
        let i = choose|i: int| 0 <= i < all.len() && all[i] == key;
        if i < done.len() {
            assert(done[i] == key);
            let k = choose|k: int|
                0 <= k < init.len() && declares(root, #[trigger] init[k], key.0, key.1);
            assert(raws[k] == init[k]);
        } else {
            assert(param_key(root, raws.last()) == Some(key));
            assert(declares(root, raws[raws.len() - 1], key.0, key.1));
        }
    }
}

/// Whether a parameter is declared like one of a list.
proof fn alike_is_declared(root: JsonView, raws: Seq<JsonView>, raw: JsonView)
    requires
        param_key(root, raw) is Some,
    ensures
        keys_declared(root, raws).contains(param_key(root, raw)->Some_0) <==> exists|k: int|
            0 <= k < raws.len() && declared_alike(root, raw, #[trigger] raws[k]),
{
    let key = param_key(root, raw)->Some_0;
    key_is_declared(root, raws, key);
    assert(declares(root, raw, key.0, key.1));
    if exists|k: int| 0 <= k < raws.len() && declares(root, #[trigger] raws[k], key.0, key.1) {
        let k = choose|k: int|
            0 <= k < raws.len() && declares(root, #[trigger] raws[k], key.0, key.1);
        assert(declared_alike(root, raw, raws[k]));
    }
    if exists|k: int| 0 <= k < raws.len() && declared_alike(root, raw, #[trigger] raws[k]) {
        let k = choose|k: int| 0 <= k < raws.len() && declared_alike(root, raw, #[trigger] raws[k]);
        let (name, place) = choose|name: Seq<char>, place: Seq<char>|
            #![trigger declares(root, raw, name, place)]
            declares(root, raw, name, place) && declares(root, raws[k], name, place);
        assert(declares(root, raws[k], key.0, key.1));
    }
}

/// The parameters of a list that come into the plan, in their order.
proof fn declared_parameters_are_planned(
    root: JsonView,
    raws: Seq<JsonView>,
    others: Seq<JsonView>,
) -> (ix: Seq<int>)
    ensures
        rising(ix, raws.len() as int),
        ix.len() == params_planned(root, raws, keys_declared(root, others)).len(),
        forall|k: int|
            0 <= k < ix.len() ==> comes_into_plan(root, raws, others, #[trigger] ix[k])
                && is_defined_by(
                root,
                params_planned(root, raws, keys_declared(root, others))[k],
                raws[ix[k]],
            ),
        forall|j: int|
            0 <= j < raws.len() && #[trigger] comes_into_plan(root, raws, others, j)
                ==> ix.contains(j),
    decreases raws.len(),
{
    let barred = keys_declared(root, others);
    if raws.len() == 0 {
        Seq::empty()
    } else {
        let init = raws.drop_last();
        let n = raws.len() - 1;
        let raw = raws[n];
        let done = declared_parameters_are_planned(root, init, others);
        let old = params_planned(root, init, barred);
        let all = params_planned(root, raws, barred);
        assert forall|j: int| 0 <= j < n implies #[trigger] comes_into_plan(root, raws, others, j)
            == comes_into_plan(root, init, others, j) by {
            assert(init[j] == raws[j]);
            assert forall|k: int| 0 <= k < j implies declared_alike(
                root,
                raws[j],
                #[trigger] raws[k],
            ) == declared_alike(root, init[j], init[k]) by {}
            if comes_into_plan(root, raws, others, j) {
                assert forall|k: int| 0 <= k < j implies !declared_alike(
                    root,
                    init[j],
                    #[trigger] init[k],
                ) by {
                    assert(init[k] == raws[k]);
                }
            }
            if comes_into_plan(root, init, others, j) {
                assert forall|k: int| 0 <= k < j implies !declared_alike(
                    root,
                    raws[j],
                    #[trigger] raws[k],
                ) by {
                    assert(init[k] == raws[k]);
                }
            }
        }
        let taken = match param_key(root, raw) {
            Some(key) => !barred.contains(key) && !keys_declared(root, init).contains(key),
            None => false,
        };
        assert(taken == comes_into_plan(root, raws, others, n)) by {
            if let Some(key) = param_key(root, raw) {
                assert(declares(root, raw, key.0, key.1));
                alike_is_declared(root, others, raw);
                alike_is_declared(root, init, raw);
                if comes_into_plan(root, raws, others, n) {
                    if keys_declared(root, init).contains(key) {
                        let k = choose|k: int|
                            0 <= k < init.len() && declared_alike(root, raw, #[trigger] init[k]);
                        assert(init[k] == raws[k]);
                    }
                }
                if taken {
                    assert forall|k: int| 0 <= k < n implies !declared_alike(
                        root,
                        raws[n],
                        #[trigger] raws[k],
                    ) by {
                        assert(init[k] == raws[k]);
                    }
                }
            } else {
                if comes_into_plan(root, raws, others, n) {
                    let (name, place) = choose|name: Seq<char>, place: Seq<char>| #[trigger]
                        declares(root, raws[n], name, place);
                    assert(declares(root, raws[n], name, place));
                }
            }
        }
        let ix = if taken {
            done.push(n)
        } else {
            done
        };
        assert forall|k: int| 0 <= k < ix.len() implies comes_into_plan(
            root,
            raws,
            others,
            #[trigger] ix[k],
        ) && is_defined_by(root, all[k], raws[ix[k]]) by {
            if k < done.len() {
                assert(ix[k] == done[k]);
                assert(all[k] == old[k]);
                assert(init[done[k]] == raws[done[k]]);
            } else {
                assert(raws.last() == raw);
            }
        }
        assert forall|j: int|
            0 <= j < raws.len() && #[trigger] comes_into_plan(
                root,
                raws,
                others,
                j,
            ) implies ix.contains(j) by {
            if j < n {
                assert(comes_into_plan(root, init, others, j));
                let k = choose|k: int| 0 <= k < done.len() && done[k] == j;
                assert(ix[k] == j);
            } else {
                assert(ix[ix.len() - 1] == j);
            }
        }
        ix
    }
}

/// The parameters that a path item or an operation lists.
pub open spec fn parameters_of(v: JsonView) -> Seq<JsonView> {
    match v.get("parameters"@) {
        Some(JsonView::Array(raws)) => raws,
        _ => Seq::empty(),
    }
}

/// The parameters of a plan are those of the path and then those of the operation, each as its
/// definition says and in its own order. Of those that are declared alike in one list the first
/// is taken, and one of the operation overrides one of the path. None that is declared is left
/// out otherwise, and none is added.
pub proof fn parameters_are_planned_as_declared(
    root: JsonView,
    id: Seq<char>,
    method: Seq<char>,
    path: Seq<char>,
    item: JsonView,
    op: JsonView,
) -> (r: (Seq<int>, Seq<int>))
    ensures
        ({
            let params = planned(root, id, method, path, item, op).params;
            let shared = parameters_of(item);
            let own = parameters_of(op);
            let none = Seq::<JsonView>::empty();
            &&& rising(r.0, shared.len() as int)
            &&& rising(r.1, own.len() as int)
            &&& params.len() == r.0.len() + r.1.len()
            &&& forall|k: int|
                0 <= k < r.0.len() ==> comes_into_plan(root, shared, own, #[trigger] r.0[k])
                    && is_defined_by(root, params[k], shared[r.0[k]])
            &&& forall|k: int|
                0 <= k < r.1.len() ==> comes_into_plan(root, own, none, #[trigger] r.1[k])
                    && is_defined_by(root, params[r.0.len() + k], own[r.1[k]])
            &&& forall|j: int|
                0 <= j < shared.len() && #[trigger] comes_into_plan(root, shared, own, j)
                    ==> r.0.contains(j)
            &&& forall|j: int|
                0 <= j < own.len() && #[trigger] comes_into_plan(root, own, none, j)
                    ==> r.1.contains(j)
        }),
{
    let shared = parameters_of(item);
    let own = parameters_of(op);
    let none = Seq::<JsonView>::empty();
    let a = declared_parameters_are_planned(root, shared, own);
    let b = declared_parameters_are_planned(root, own, none);
    assert(keys_declared(root, none) =~= Seq::empty());
    let params = planned(root, id, method, path, item, op).params;
    let first = params_planned(root, shared, keys_declared(root, own));
    let second = params_planned(root, own, Seq::empty());
    assert(params == first + second);
    assert forall|k: int| 0 <= k < a.len() implies comes_into_plan(
        root,
        shared,
        own,
        #[trigger] a[k],
    ) && is_defined_by(root, params[k], shared[a[k]]) by {
        assert(params[k] == first[k]);
    }
    assert forall|k: int| 0 <= k < b.len() implies comes_into_plan(root, own, none, #[trigger] b[k])
        && is_defined_by(root, params[a.len() + k], own[b[k]]) by {
        assert(params[a.len() + k] == second[k]);
    }
    (a, b)
}

// Loading.

/// Whether a text begins with another.
pub open spec fn begins(s: Seq<char>, prefix: Seq<char>) -> bool {
    s.len() >= prefix.len() && s.take(prefix.len() as int) == prefix
}

/// A document is loaded as it is where it stands in the configuration, and read from its file
/// where a `file://` URI names one. Either way its root is an object. What the network would have
/// to bring is refused, and so is any other scheme.
pub proof fn document_is_loaded_from_its_source(
    source: SpecSource,
    file: Result<Seq<char>, Seq<char>>,
)
    ensures
        match source {
            SpecSource::Inline { inline } => if inline@ is Object {
                loaded(source, file) == Ok::<JsonView, Seq<char>>(inline@)
            } else {
                loaded(source, file) == Err::<JsonView, Seq<char>>(
                    "spec document root is not a JSON/YAML object"@,
                )
            },
            SpecSource::Uri(uri) => {
                &&& loaded(source, file) is Ok ==> seq![
                    'f',
                    'i',
                    'l',
                    'e',
                    ':',
                    '/',
                    '/',
                ].is_prefix_of(uri@) && file is Ok && loaded(source, file)->Ok_0 is Object
                &&& seq!['f', 'i', 'l', 'e', ':', '/', '/'].is_prefix_of(uri@) ==> match file {
                    Ok(text) => match document_in(text) {
                        Ok(v) => if v is Object {
                            loaded(source, file) == Ok::<JsonView, Seq<char>>(v)
                        } else {
                            loaded(source, file) == Err::<JsonView, Seq<char>>(
                                "spec document root is not a JSON/YAML object"@,
                            )
                        },
                        Err(e) => loaded(source, file) == Err::<JsonView, Seq<char>>(
                            "parsing spec '"@ + uri@.skip(7) + "': "@ + e,
                        ),
                    },
                    Err(e) => loaded(source, file) == Err::<JsonView, Seq<char>>(
                        "reading spec '"@ + uri@.skip(7) + "': "@ + e,
                    ),
                }
                &&& begins(uri@, "http://"@) || begins(uri@, "https://"@) ==> loaded(source, file)
                    == Err::<JsonView, Seq<char>>(
                    "remote spec sources are not yet supported (deferred to a later phase): '"@
                        + uri@ + "'"@,
                )
                &&& !begins(uri@, "file://"@) && !begins(uri@, "http://"@) && !begins(
                    uri@,
                    "https://"@,
                ) ==> loaded(source, file) == Err::<JsonView, Seq<char>>(
                    "unsupported spec source scheme: '"@ + uri@ + "'"@,
                )
            },
        },
{
    reveal_strlit("file://");
    reveal_strlit("http://");
    reveal_strlit("https://");
    assert("file://"@ =~= seq!['f', 'i', 'l', 'e', ':', '/', '/']);
    if let SpecSource::Uri(uri) = source {
        assert("http://"@[0] == 'h' && "https://"@[0] == 'h' && "file://"@[0] == 'f');
        if begins(uri@, "http://"@) {
            assert(uri@.take(7)[0] == uri@[0]);
            assert(uri@.subrange(0, 7) =~= "http://"@);
        }
        if begins(uri@, "https://"@) {
            assert(uri@.take(8)[0] == uri@[0]);
            assert(uri@.subrange(0, 8) =~= "https://"@);
        }
        if "file://"@.is_prefix_of(uri@) {
            assert(uri@[0] == "file://"@[0]);
            assert(uri@.take(7) =~= "file://"@);
        }
        if "http://"@.is_prefix_of(uri@) {
            assert(uri@.take(7) =~= "http://"@);
        }
        if "https://"@.is_prefix_of(uri@) {
            assert(uri@.take(8) =~= "https://"@);
        }
    }
}

}
