//! What a request holds, told from the arguments alone: where each argument goes, how it is
//! written there, and what is left for the body.
use crate::codec::json_text;
use crate::json::JsonView;
use crate::laws::leftover_arguments_form_the_body;
use crate::plan::{BodyLayout, OperationPlanView, ParamLocation};
use crate::request::{percent_encoded, rendered, PreparedRequestView};
use crate::template::{
    braceless, placeholders_are_substituted, plain, template_of, Piece,
};
use crate::text_map::lookup;
use vstd::prelude::*;
use vstd::utf8::encode_utf8;

verus! {

/// The argument that parameter `i` is given: whatever stands under its name. A cookie is given
/// none.
pub open spec fn given_for(
    plan: OperationPlanView,
    es: Seq<(Seq<char>, JsonView)>,
    i: int,
) -> Option<JsonView> {
    if plan.params[i].location == ParamLocation::Cookie || plan.key_at(i).len() == 0 {
        None
    } else {
        lookup(es, plan.key_at(i))
    }
}

/// Whether the indices rise and stay below `n`.
pub open spec fn rising(ix: Seq<int>, n: int) -> bool {
    &&& forall|a: int| 0 <= a < ix.len() ==> 0 <= #[trigger] ix[a] < n
    &&& forall|a: int, b: int| 0 <= a < b < ix.len() ==> #[trigger] ix[a] < #[trigger] ix[b]
}

/// Whether `pairs` are the parameters `ix` at `location`, each under its own name with its
/// argument written out.
pub open spec fn pairs_of_parameters(
    plan: OperationPlanView,
    es: Seq<(Seq<char>, JsonView)>,
    location: ParamLocation,
    pairs: Seq<(Seq<char>, Seq<char>)>,
    ix: Seq<int>,
) -> bool {
    &&& ix.len() == pairs.len()
    &&& forall|k: int|
        #![trigger ix[k]]
        0 <= k < ix.len() ==> ({
            &&& plan.params[ix[k]].location == location
            &&& given_for(plan, es, ix[k]) is Some
            &&& pairs[k] == (
                plan.params[ix[k]].name,
                rendered(given_for(plan, es, ix[k])->Some_0),
            )
        })
}

/// Whether `ix` holds every parameter below `n` at `location` that is given an argument.
pub open spec fn all_given(
    plan: OperationPlanView,
    es: Seq<(Seq<char>, JsonView)>,
    location: ParamLocation,
    ix: Seq<int>,
    n: int,
) -> bool {
    forall|i: int|
        #![trigger plan.params[i]]
        0 <= i < n && plan.params[i].location == location && given_for(plan, es, i) is Some
            ==> ix.contains(i)
}

/// The parameters that the pairs come from.
proof fn pairs_come_from_parameters(
    plan: OperationPlanView,
    es: Seq<(Seq<char>, JsonView)>,
    location: ParamLocation,
    n: int,
) -> (ix: Seq<int>)
    requires
        0 <= n <= plan.params.len(),
    ensures
        rising(ix, n),
        pairs_of_parameters(
            plan,
            es,
            location,
            plan.pairs_sent(JsonView::Object(es), n, location),
            ix,
        ),
        all_given(plan, es, location, ix, n),
    decreases n,
{
    let args = JsonView::Object(es);
    if n == 0 {
        Seq::empty()
    } else {
        let done = pairs_come_from_parameters(plan, es, location, n - 1);
        let pairs = plan.pairs_sent(args, n - 1, location);
        if plan.params[n - 1].location == location && given_for(plan, es, n - 1) is Some {
            let ix = done.push(n - 1);
            assert forall|k: int| #![trigger ix[k]] 0 <= k < ix.len() implies ({
                &&& plan.params[ix[k]].location == location
                &&& given_for(plan, es, ix[k]) is Some
                &&& plan.pairs_sent(args, n, location)[k] == (
                    plan.params[ix[k]].name,
                    rendered(given_for(plan, es, ix[k])->Some_0),
                )
            }) by {
                if k < done.len() {
                    assert(ix[k] == done[k]);
                    assert(plan.pairs_sent(args, n, location)[k] == pairs[k]);
                }
            }
            assert forall|i: int|
                #![trigger plan.params[i]]
                0 <= i < n && plan.params[i].location == location && given_for(
                    plan,
                    es,
                    i,
                ) is Some implies ix.contains(i) by {
                if i == n - 1 {
                    assert(ix[ix.len() - 1] == i);
                } else {
                    let k = choose|k: int| 0 <= k < done.len() && done[k] == i;
                    assert(ix[k] == i);
                }
            }
            ix
        } else {
            assert(plan.pairs_sent(args, n, location) == pairs);
            done
        }
    }
}

/// The query holds one pair for every query parameter that is given an argument, whatever the
/// argument is, in the order of the parameters, and no other pair.
pub proof fn query_holds_every_argument(
    plan: OperationPlanView,
    es: Seq<(Seq<char>, JsonView)>,
) -> (ix: Seq<int>)
    requires
        plan.request(JsonView::Object(es)) is Ok,
    ensures
        rising(ix, plan.params.len() as int),
        pairs_of_parameters(
            plan,
            es,
            ParamLocation::Query,
            plan.request(JsonView::Object(es))->Ok_0.query,
            ix,
        ),
        all_given(plan, es, ParamLocation::Query, ix, plan.params.len() as int),
{
    pairs_come_from_parameters(plan, es, ParamLocation::Query, plan.params.len() as int)
}

/// The headers hold one pair for every header parameter that is given an argument, whatever the
/// argument is, in the order of the parameters, and no other pair.
pub proof fn headers_hold_every_argument(
    plan: OperationPlanView,
    es: Seq<(Seq<char>, JsonView)>,
) -> (ix: Seq<int>)
    requires
        plan.request(JsonView::Object(es)) is Ok,
    ensures
        rising(ix, plan.params.len() as int),
        pairs_of_parameters(
            plan,
            es,
            ParamLocation::Header,
            plan.request(JsonView::Object(es))->Ok_0.header_params,
            ix,
        ),
        all_given(plan, es, ParamLocation::Header, ix, plan.params.len() as int),
{
    pairs_come_from_parameters(plan, es, ParamLocation::Header, plan.params.len() as int)
}

/// An argument is written as it reads: a string as it is, a boolean as `true` or `false`, null as
/// nothing, and everything else as its JSON text.
pub proof fn argument_is_written_as_it_reads(v: JsonView)
    ensures
        v is String ==> rendered(v) == v->String_0,
        v == JsonView::Bool(true) ==> rendered(v) == seq!['t', 'r', 'u', 'e'],
        v == JsonView::Bool(false) ==> rendered(v) == seq!['f', 'a', 'l', 's', 'e'],
        v is Null ==> rendered(v).len() == 0,
        v is Number || v is Array || v is Object ==> rendered(v) == json_text(v),
{
    reveal_strlit("true");
    reveal_strlit("false");
    assert("true"@ =~= seq!['t', 'r', 'u', 'e']);
    assert("false"@ =~= seq!['f', 'a', 'l', 's', 'e']);
}

/// The number that a capital hexadecimal digit stands for; -1 for any other character.
pub open spec fn hex_digit_value(c: char) -> int {
    if '0' <= c && c <= '9' {
        c as int - '0' as int
    } else if 'A' <= c && c <= 'F' {
        c as int - 'A' as int + 10
    } else {
        -1
    }
}

/// Percent-encoding writes byte after byte. A byte that is a letter, a digit or one of `-._~`
/// stands for itself; any other is a `%` and the two hexadecimal digits of its value.
pub proof fn bytes_are_encoded_one_by_one(bytes: Seq<u8>, b: u8)
    ensures
        percent_encoded(Seq::empty()).len() == 0,
        ({
            let done = percent_encoded(bytes);
            let all = percent_encoded(bytes.push(b));
            let c = b as char;
            if ('a' <= c && c <= 'z') || ('A' <= c && c <= 'Z') || ('0' <= c && c <= '9') || c
                == '-' || c == '.' || c == '_' || c == '~' {
                all == done.push(c)
            } else {
                &&& all.len() == done.len() + 3
                &&& all.take(done.len() as int) == done
                &&& all[done.len() as int] == '%'
                &&& hex_digit_value(all[done.len() + 1int]) * 16 + hex_digit_value(
                    all[done.len() + 2int],
                ) == b
                &&& 0 <= hex_digit_value(all[done.len() + 1int])
                &&& 0 <= hex_digit_value(all[done.len() + 2int])
            }
        }),
{
    let done = percent_encoded(bytes);
    let all = percent_encoded(bytes.push(b));
    assert(bytes.push(b).drop_last() =~= bytes);
    assert(bytes.push(b).last() == b);
    assert(all.take(done.len() as int) =~= done);
}

/// Whether `i` is the first path parameter called `name` that is given an argument.
pub open spec fn first_given(
    plan: OperationPlanView,
    es: Seq<(Seq<char>, JsonView)>,
    name: Seq<char>,
    i: int,
) -> bool {
    &&& plan.params[i].location == ParamLocation::Path
    &&& plan.params[i].name == name
    &&& given_for(plan, es, i) is Some
    &&& forall|j: int|
        0 <= j < i && (#[trigger] plan.params[j]).location == ParamLocation::Path
            && plan.params[j].name == name ==> given_for(plan, es, j) is None
}

/// What becomes of a piece once the first `n` parameters are filled in.
proof fn piece_is_filled(
    plan: OperationPlanView,
    es: Seq<(Seq<char>, JsonView)>,
    ps: Seq<Piece>,
    n: int,
    k: int,
)
    requires
        0 <= n <= plan.params.len(),
        0 <= k < ps.len(),
    ensures
        plan.pieces_filled(JsonView::Object(es), ps, n).len() == ps.len(),
        ps[k] is Literal ==> plan.pieces_filled(JsonView::Object(es), ps, n)[k] == ps[k],
        ps[k] is Placeholder && (forall|i: int|
            0 <= i < n && (#[trigger] plan.params[i]).location == ParamLocation::Path
                && plan.params[i].name == ps[k]->Placeholder_0 ==> given_for(plan, es, i) is None)
            ==> plan.pieces_filled(JsonView::Object(es), ps, n)[k] == ps[k],
        forall|i: int|
            #![trigger plan.params[i]]
            0 <= i < n && ps[k] is Placeholder && first_given(plan, es, ps[k]->Placeholder_0, i)
                ==> plan.pieces_filled(JsonView::Object(es), ps, n)[k] == Piece::Literal(
                percent_encoded(encode_utf8(rendered(given_for(plan, es, i)->Some_0))),
            ),
    decreases n,
{
    if n > 0 {
        piece_is_filled(plan, es, ps, n - 1, k);
        let last = plan.params[n - 1];
        assert(plan.sent(JsonView::Object(es), n - 1, ParamLocation::Path) is Some <==> (
        last.location == ParamLocation::Path && given_for(plan, es, n - 1) is Some));
    }
}

/// The path is the template with each placeholder replaced by the argument of the first path
/// parameter of its name, percent-encoded, whatever the argument is. A placeholder without an
/// argument stays, and so does all the rest.
pub proof fn path_holds_every_argument(
    plan: OperationPlanView,
    es: Seq<(Seq<char>, JsonView)>,
    ps: Seq<Piece>,
) -> (out: Seq<Piece>)
    requires
        plan.request(JsonView::Object(es)) is Ok,
        plan.path_template == template_of(ps),
        plain(ps),
        forall|i: int| 0 <= i < plan.params.len() ==> braceless((#[trigger] plan.params[i]).name),
    ensures
        plan.request(JsonView::Object(es))->Ok_0.relative_path == template_of(out),
        out.len() == ps.len(),
        forall|k: int| 0 <= k < ps.len() && (#[trigger] ps[k]) is Literal ==> out[k] == ps[k],
        forall|k: int|
            0 <= k < ps.len() && (#[trigger] ps[k]) is Placeholder && (forall|i: int|
                0 <= i < plan.params.len() && (#[trigger] plan.params[i]).location
                    == ParamLocation::Path && plan.params[i].name == ps[k]->Placeholder_0
                    ==> given_for(plan, es, i) is None) ==> out[k] == ps[k],
        forall|k: int, i: int|
            #![trigger ps[k], plan.params[i]]
            0 <= k < ps.len() && ps[k] is Placeholder && 0 <= i < plan.params.len() && first_given(
                plan,
                es,
                ps[k]->Placeholder_0,
                i,
            ) ==> out[k] == Piece::Literal(
                percent_encoded(encode_utf8(rendered(given_for(plan, es, i)->Some_0))),
            ),
{
    let n = plan.params.len() as int;
    let args = JsonView::Object(es);
    placeholders_are_substituted(plan, args, ps, n);
    let out = plan.pieces_filled(args, ps, n);
    assert forall|k: int| 0 <= k < ps.len() && (#[trigger] ps[k]) is Literal implies out[k]
        == ps[k] by {
        piece_is_filled(plan, es, ps, n, k);
    }
    assert forall|k: int|
        0 <= k < ps.len() && (#[trigger] ps[k]) is Placeholder && (forall|i: int|
            0 <= i < plan.params.len() && (#[trigger] plan.params[i]).location
                == ParamLocation::Path && plan.params[i].name == ps[k]->Placeholder_0
                ==> given_for(plan, es, i) is None) implies out[k] == ps[k] by {
        piece_is_filled(plan, es, ps, n, k);
    }
    assert forall|k: int, i: int|
        #![trigger ps[k], plan.params[i]]
        0 <= k < ps.len() && ps[k] is Placeholder && 0 <= i < plan.params.len() && first_given(
            plan,
            es,
            ps[k]->Placeholder_0,
            i,
        ) implies out[k] == Piece::Literal(
        percent_encoded(encode_utf8(rendered(given_for(plan, es, i)->Some_0))),
    ) by {
        piece_is_filled(plan, es, ps, n, k);
    }
    out
}

/// Whether an argument for a path parameter is a text of dots alone.
pub open spec fn dotted(
    plan: OperationPlanView,
    es: Seq<(Seq<char>, JsonView)>,
    i: int,
) -> bool {
    &&& plan.params[i].location == ParamLocation::Path
    &&& given_for(plan, es, i) is Some
    &&& rendered(given_for(plan, es, i)->Some_0).len() > 0
    &&& forall|j: int|
        0 <= j < rendered(given_for(plan, es, i)->Some_0).len() ==> #[trigger] rendered(
            given_for(plan, es, i)->Some_0,
        )[j] == '.'
}

/// The first refused parameter from `n` on.
proof fn refusal_is_of_first_dotted(
    plan: OperationPlanView,
    es: Seq<(Seq<char>, JsonView)>,
    n: int,
)
    requires
        0 <= n <= plan.params.len(),
    ensures
        match plan.refused_from(JsonView::Object(es), n) {
            Some(i) => n <= i < plan.params.len() && dotted(plan, es, i) && forall|j: int|
                n <= j < i ==> !#[trigger] dotted(plan, es, j),
            None => forall|j: int| n <= j < plan.params.len() ==> !#[trigger] dotted(plan, es, j),
        },
    decreases plan.params.len() - n,
{
    if n < plan.params.len() {
        refusal_is_of_first_dotted(plan, es, n + 1);
    }
}

/// A request is refused exactly where an argument for a path parameter is a text of dots alone,
/// and the refusal names the first such parameter.
pub proof fn dots_in_a_path_are_refused(plan: OperationPlanView, es: Seq<(Seq<char>, JsonView)>)
    ensures
        plan.request(JsonView::Object(es)) is Ok <==> forall|i: int|
            0 <= i < plan.params.len() ==> !#[trigger] dotted(plan, es, i),
        forall|i: int|
            0 <= i < plan.params.len() && #[trigger] dotted(plan, es, i) && (forall|j: int|
                0 <= j < i ==> !#[trigger] dotted(plan, es, j)) ==> plan.request(
                JsonView::Object(es),
            ) == Err::<PreparedRequestView, Seq<char>>(
                "path parameter `"@ + plan.params[i].name + "` must not consist only of dots"@,
            ),
{
    refusal_is_of_first_dotted(plan, es, 0);
    if let Some(r) = plan.refused_from(JsonView::Object(es), 0) {
        assert(dotted(plan, es, r));
        assert forall|i: int|
            0 <= i < plan.params.len() && #[trigger] dotted(plan, es, i) && (forall|j: int|
                0 <= j < i ==> !#[trigger] dotted(plan, es, j)) implies i == r by {
            if r < i {
                assert(!dotted(plan, es, r));
            }
        }
    }
}

/// The body of a request. There is none where the operation has none; a body that is no object is
/// the argument `body`; and the fields of an object body are the arguments that are no
/// parameter's, each unchanged.
pub proof fn body_holds_what_is_left(
    plan: OperationPlanView,
    es: Seq<(Seq<char>, JsonView)>,
    q: Seq<char>,
)
    requires
        plan.request(JsonView::Object(es)) is Ok,
    ensures
        ({
            let body = plan.request(JsonView::Object(es))->Ok_0.body;
            match plan.body {
                None => body is None,
                Some(b) => if b.schema.text_at("type"@) == Some("object"@) || b.schema.get(
                    "properties"@,
                ) is Some {
                    &&& body is Some
                    &&& body->Some_0 is Object
                    &&& body->Some_0.get(q) == (if q.len() > 0 && exists|i: int|
                        0 <= i < plan.params.len() && #[trigger] plan.key_at(i) == q {
                        None
                    } else {
                        lookup(es, q)
                    })
                } else {
                    body == lookup(es, "body"@)
                },
            }
        }),
{
    if plan.layout() == BodyLayout::Hoisted {
        leftover_arguments_form_the_body(plan, es, q);
        if plan.claims(q) {
            let i = choose|i: int| 0 <= i < plan.keys().len() && plan.keys()[i] == q;
            assert(plan.key_at(i) == q);
        }
        if exists|i: int| 0 <= i < plan.params.len() && #[trigger] plan.key_at(i) == q {
            let i = choose|i: int| 0 <= i < plan.params.len() && #[trigger] plan.key_at(i) == q;
            assert(plan.keys()[i] == q);
        }
    }
}

/// A request goes out with the method of its operation. Arguments that are no object give no
/// parameter an argument: the path is the template, query and headers are empty.
pub proof fn arguments_that_are_no_object_give_nothing(plan: OperationPlanView, args: JsonView)
    ensures
        plan.request(args) is Ok ==> plan.request(args)->Ok_0.method == plan.method,
        !(args is Object) ==> ({
            &&& plan.request(args) is Ok
            &&& plan.request(args)->Ok_0.relative_path == plan.path_template
            &&& plan.request(args)->Ok_0.query.len() == 0
            &&& plan.request(args)->Ok_0.header_params.len() == 0
            &&& match plan.body {
                None => plan.request(args)->Ok_0.body is None,
                Some(b) => if b.schema.text_at("type"@) == Some("object"@) || b.schema.get(
                    "properties"@,
                ) is Some {
                    plan.request(args)->Ok_0.body == Some(JsonView::Object(Seq::empty()))
                } else {
                    plan.request(args)->Ok_0.body is None
                },
            }
        }),
{
    if !(args is Object) {
        nothing_is_sent(plan, args, plan.params.len() as int);
        nothing_is_refused(plan, args, 0);
    }
}

/// Without arguments nothing is sent.
proof fn nothing_is_sent(plan: OperationPlanView, args: JsonView, n: int)
    requires
        !(args is Object),
        0 <= n <= plan.params.len(),
    ensures
        plan.path_filled(args, n) == plan.path_template,
        plan.pairs_sent(args, n, ParamLocation::Query).len() == 0,
        plan.pairs_sent(args, n, ParamLocation::Header).len() == 0,
    decreases n,
{
    if n > 0 {
        nothing_is_sent(plan, args, n - 1);
    }
}

/// Without arguments nothing is refused.
proof fn nothing_is_refused(plan: OperationPlanView, args: JsonView, n: int)
    requires
        !(args is Object),
        0 <= n <= plan.params.len(),
    ensures
        plan.refused_from(args, n) is None,
    decreases plan.params.len() - n,
{
    if n < plan.params.len() {
        nothing_is_refused(plan, args, n + 1);
    }
}

}
