//! Path templates as pieces: what filling in the parameters of an operation comes to.
use crate::json::JsonView;
use crate::laws::encoded_text_has_no_separator;
use crate::plan::{OperationPlanView, ParamLocation};
use crate::request::percent_encoded;
use crate::text::replace_all;
use vstd::prelude::*;
use vstd::utf8::encode_utf8;

verus! {

/// A piece of a path template.
pub enum Piece {
    /// Text that stands for itself.
    Literal(Seq<char>),
    /// The name of a parameter, in braces.
    Placeholder(Seq<char>),
}

impl Piece {
    /// The piece as it stands in the template.
    pub open spec fn text(self) -> Seq<char> {
        match self {
            Piece::Literal(s) => s,
            Piece::Placeholder(name) => "{"@ + name + "}"@,
        }
    }

    /// The piece without its braces.
    pub open spec fn inner(self) -> Seq<char> {
        match self {
            Piece::Literal(s) => s,
            Piece::Placeholder(name) => name,
        }
    }

    /// The piece once the parameter `name` is filled in with `new`.
    pub open spec fn filled(self, name: Seq<char>, new: Seq<char>) -> Piece {
        if self == Piece::Placeholder(name) {
            Piece::Literal(new)
        } else {
            self
        }
    }
}

/// Whether no brace stands in `s`.
pub open spec fn braceless(s: Seq<char>) -> bool {
    forall|i: int| 0 <= i < s.len() ==> #[trigger] s[i] != '{' && s[i] != '}'
}

/// Whether braces stand round placeholders alone.
pub open spec fn plain(ps: Seq<Piece>) -> bool {
    forall|i: int| 0 <= i < ps.len() ==> braceless((#[trigger] ps[i]).inner())
}

/// The template that the pieces make.
pub open spec fn template_of(ps: Seq<Piece>) -> Seq<char>
    decreases ps.len(),
{
    if ps.len() == 0 {
        Seq::empty()
    } else {
        ps[0].text() + template_of(ps.skip(1))
    }
}

/// The pieces once the parameter `name` is filled in with `new`.
pub open spec fn fill(ps: Seq<Piece>, name: Seq<char>, new: Seq<char>) -> Seq<Piece> {
    ps.map_values(|p: Piece| p.filled(name, new))
}

/// Replacing passes over text in which the part cannot begin.
proof fn replacing_passes(lit: Seq<char>, rest: Seq<char>, part: Seq<char>, new: Seq<char>)
    requires
        part.len() > 0,
        forall|i: int| 0 <= i < lit.len() ==> #[trigger] lit[i] != part[0],
    ensures
        replace_all(lit + rest, part, new) == lit + replace_all(rest, part, new),
    decreases lit.len(),
{
    let s = lit + rest;
    if lit.len() == 0 {
        assert(s =~= rest);
        assert(lit + replace_all(rest, part, new) =~= replace_all(rest, part, new));
    } else {
        let tail = lit.skip(1);
        assert forall|i: int| 0 <= i < tail.len() implies #[trigger] tail[i] != part[0] by {
            assert(tail[i] == lit[i + 1]);
        }
        replacing_passes(tail, rest, part, new);
        assert(s[0] == lit[0]);
        assert(!part.is_prefix_of(s)) by {
            if part.is_prefix_of(s) {
                assert(part[0] == s[0]);
            }
        }
        assert(s.skip(1) =~= tail + rest);
        assert(seq![lit[0]] + (tail + replace_all(rest, part, new)) =~= lit + replace_all(
            rest,
            part,
            new,
        ));
    }
}

/// Replacing a placeholder in a template fills in its pieces.
proof fn replacing_fills(ps: Seq<Piece>, name: Seq<char>, new: Seq<char>)
    requires
        plain(ps),
        braceless(name),
    ensures
        replace_all(template_of(ps), "{"@ + name + "}"@, new) == template_of(fill(ps, name, new)),
    decreases ps.len(),
{
    reveal_strlit("{");
    reveal_strlit("}");
    let part = "{"@ + name + "}"@;
    assert(part[0] == '{');
    let filled = fill(ps, name, new);
    if ps.len() > 0 {
        let tail = ps.skip(1);
        assert forall|i: int| 0 <= i < tail.len() implies braceless(
            (#[trigger] tail[i]).inner(),
        ) by {
            assert(tail[i] == ps[i + 1]);
        }
        replacing_fills(tail, name, new);
        assert(filled.skip(1) =~= fill(tail, name, new));
        let rest = template_of(tail);
        let s = template_of(ps);
        assert(braceless(ps[0].inner()));
        match ps[0] {
            Piece::Literal(lit) => {
                replacing_passes(lit, rest, part, new);
            },
            Piece::Placeholder(m) => {
                if m == name {
                    assert(part.is_prefix_of(s)) by {
                        assert(s.subrange(0, part.len() as int) =~= part);
                    }
                    assert(s.skip(part.len() as int) =~= rest);
                } else {
                    assert(!part.is_prefix_of(s)) by {
                        if part.is_prefix_of(s) {
                            placeholders_differ(name, m, rest);
                        }
                    }
                    let after = m + "}"@;
                    assert(s =~= "{"@ + (after + rest));
                    assert(s.skip(1) =~= after + rest);
                    assert forall|i: int| 0 <= i < after.len() implies #[trigger] after[i]
                        != part[0] by {
                        if i < m.len() {
                            assert(after[i] == m[i]);
                        }
                    }
                    replacing_passes(after, rest, part, new);
                    assert(seq![s[0]] + (after + replace_all(rest, part, new)) =~= ("{"@ + m
                        + "}"@) + replace_all(rest, part, new));
                }
            },
        }
    } else {
        assert(filled =~= Seq::empty());
    }
}

/// A placeholder stands only where its own name does.
proof fn placeholders_differ(name: Seq<char>, m: Seq<char>, rest: Seq<char>)
    requires
        braceless(name),
        braceless(m),
        ("{"@ + name + "}"@).is_prefix_of(("{"@ + m + "}"@) + rest),
    ensures
        name == m,
{
    reveal_strlit("{");
    reveal_strlit("}");
    let part = "{"@ + name + "}"@;
    let s = ("{"@ + m + "}"@) + rest;
    assert forall|i: int| 0 <= i < part.len() implies #[trigger] part[i] == s[i] by {
        assert(s.subrange(0, part.len() as int)[i] == s[i]);
    }
    if name.len() < m.len() {
        assert(part[name.len() + 1int] == '}');
        assert(s[name.len() + 1int] == m[name.len() as int]);
    } else if m.len() < name.len() {
        assert(part[m.len() + 1int] == name[m.len() as int]);
        assert(s[m.len() + 1int] == '}');
    } else {
        assert forall|i: int| 0 <= i < name.len() implies name[i] == m[i] by {
            assert(part[i + 1] == name[i]);
            assert(s[i + 1] == m[i]);
        }
        assert(name =~= m);
    }
}

impl OperationPlanView {
    /// The pieces once the first `n` parameters are filled in.
    pub open spec fn pieces_filled(self, args: JsonView, ps: Seq<Piece>, n: int) -> Seq<Piece>
        decreases n,
    {
        if n <= 0 {
            ps
        } else {
            let done = self.pieces_filled(args, ps, n - 1);
            match self.sent(args, n - 1, ParamLocation::Path) {
                Some(s) => fill(
                    done,
                    self.params[n - 1].name,
                    percent_encoded(encode_utf8(s)),
                ),
                None => done,
            }
        }
    }
}

/// Filling in a path parameter replaces its placeholders by the percent-encoded argument, and
/// leaves everything else of the template as it is.
pub proof fn placeholders_are_substituted(
    plan: OperationPlanView,
    args: JsonView,
    ps: Seq<Piece>,
    n: int,
)
    requires
        0 <= n <= plan.params.len(),
        plan.path_template == template_of(ps),
        plain(ps),
        forall|i: int| 0 <= i < plan.params.len() ==> braceless((#[trigger] plan.params[i]).name),
    ensures
        plan.path_filled(args, n) == template_of(plan.pieces_filled(args, ps, n)),
        plain(plan.pieces_filled(args, ps, n)),
        plan.pieces_filled(args, ps, n).len() == ps.len(),
    decreases n,
{
    if n > 0 {
        placeholders_are_substituted(plan, args, ps, n - 1);
        if let Some(s) = plan.sent(args, n - 1, ParamLocation::Path) {
            let done = plan.pieces_filled(args, ps, n - 1);
            let name = plan.params[n - 1].name;
            let new = percent_encoded(encode_utf8(s));
            assert(braceless(plan.params[n - 1].name));
            replacing_fills(done, name, new);
            assert forall|i: int| 0 <= i < new.len() implies #[trigger] new[i] != '{' && new[i]
                != '}' by {
                encoded_text_has_no_separator(encode_utf8(s), i);
            }
            let all = fill(done, name, new);
            assert forall|i: int| 0 <= i < all.len() implies braceless(
                (#[trigger] all[i]).inner(),
            ) by {
                assert(all[i] == done[i].filled(name, new));
                assert(braceless(done[i].inner()));
            }
        }
    }
}

/// A piece stays filled in.
proof fn literal_stays(plan: OperationPlanView, args: JsonView, ps: Seq<Piece>, n: int, k: int)
    requires
        0 <= n,
        0 <= k < ps.len(),
        ps[k] is Literal,
    ensures
        plan.pieces_filled(args, ps, n).len() == ps.len(),
        plan.pieces_filled(args, ps, n)[k] == ps[k],
    decreases n,
{
    if n > 0 {
        literal_stays(plan, args, ps, n - 1, k);
    }
}

/// A placeholder is filled in by the first parameter of its name, wherever it stands.
proof fn placeholder_is_filled(
    plan: OperationPlanView,
    args: JsonView,
    ps: Seq<Piece>,
    n: int,
    k: int,
    i: int,
)
    requires
        0 <= i < n,
        0 <= k < ps.len(),
        ps[k] is Placeholder,
        ps[k]->Placeholder_0 == plan.params[i].name,
        plan.sent(args, i, ParamLocation::Path) is Some,
    ensures
        plan.pieces_filled(args, ps, n).len() == ps.len(),
        plan.pieces_filled(args, ps, n)[k] is Literal,
    decreases n,
{
    if i < n - 1 {
        placeholder_is_filled(plan, args, ps, n - 1, k, i);
    } else {
        pieces_keep_names(plan, args, ps, n - 1, k);
    }
}

/// A piece is what it was, or has been filled in.
proof fn pieces_keep_names(plan: OperationPlanView, args: JsonView, ps: Seq<Piece>, n: int, k: int)
    requires
        0 <= n,
        0 <= k < ps.len(),
    ensures
        plan.pieces_filled(args, ps, n).len() == ps.len(),
        plan.pieces_filled(args, ps, n)[k] is Literal || plan.pieces_filled(args, ps, n)[k]
            == ps[k],
    decreases n,
{
    if n > 0 {
        pieces_keep_names(plan, args, ps, n - 1, k);
    }
}

/// A template of literals without braces has no brace.
proof fn literals_have_no_brace(ps: Seq<Piece>)
    requires
        plain(ps),
        forall|k: int| 0 <= k < ps.len() ==> (#[trigger] ps[k]) is Literal,
    ensures
        braceless(template_of(ps)),
    decreases ps.len(),
{
    if ps.len() > 0 {
        let tail = ps.skip(1);
        assert forall|k: int| 0 <= k < tail.len() implies (#[trigger] tail[k]) is Literal
            && braceless(tail[k].inner()) by {
            assert(tail[k] == ps[k + 1]);
        }
        literals_have_no_brace(tail);
        assert(braceless(ps[0].inner()));
        let s = template_of(ps);
        let first = ps[0].text();
        assert forall|i: int| 0 <= i < s.len() implies #[trigger] s[i] != '{' && s[i] != '}' by {
            if i < first.len() {
                assert(s[i] == first[i]);
            } else {
                assert(s[i] == template_of(tail)[i - first.len()]);
            }
        }
    }
}

/// A path whose placeholders all have an argument keeps none of them.
pub proof fn filled_path_keeps_no_placeholder(
    plan: OperationPlanView,
    args: JsonView,
    ps: Seq<Piece>,
)
    requires
        plan.path_template == template_of(ps),
        plain(ps),
        forall|i: int| 0 <= i < plan.params.len() ==> braceless((#[trigger] plan.params[i]).name),
        forall|k: int|
            0 <= k < ps.len() && (#[trigger] ps[k]) is Placeholder ==> exists|i: int|
                0 <= i < plan.params.len() && (#[trigger] plan.params[i]).name
                    == ps[k]->Placeholder_0 && plan.sent(args, i, ParamLocation::Path) is Some,
    ensures
        braceless(plan.path_filled(args, plan.params.len() as int)),
{
    let n = plan.params.len() as int;
    placeholders_are_substituted(plan, args, ps, n);
    let all = plan.pieces_filled(args, ps, n);
    assert forall|k: int| 0 <= k < all.len() implies (#[trigger] all[k]) is Literal by {
        if ps[k] is Placeholder {
            let i = choose|i: int|
                0 <= i < plan.params.len() && (#[trigger] plan.params[i]).name
                    == ps[k]->Placeholder_0 && plan.sent(args, i, ParamLocation::Path) is Some;
            placeholder_is_filled(plan, args, ps, n, k, i);
        } else {
            literal_stays(plan, args, ps, n, k);
        }
    }
    literals_have_no_brace(all);
}

}
