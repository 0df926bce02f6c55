//! Turns tool arguments into an HTTP request as an operation's plan lays it out.
use crate::codec::json_text;
use crate::json::{members, no_members, put_last, tree_of, Json, JsonView};
use crate::plan::{BodyLayout, OperationPlan, OperationPlanView, ParamLocation};
use crate::text::{
    before, chars_of, is_one_of, join3, pair_texts, replace_all, replaced, texts,
};
use crate::text_map::{ascending, TextMap};
use vstd::prelude::*;
use vstd::utf8::encode_utf8;

verus! {

/// A request made from arguments, before base URL, credentials and fixed headers.
#[derive(Debug, Clone)]
pub struct PreparedRequest {
    pub method: String,
    /// The path with its parameters filled in and percent-encoded, without a query.
    pub relative_path: String,
    pub query: Vec<(String, String)>,
    /// The header parameters of the operation.
    pub header_params: Vec<(String, String)>,
    pub body: Option<Json>,
}

/// What a prepared request is.
pub struct PreparedRequestView {
    pub method: Seq<char>,
    pub relative_path: Seq<char>,
    pub query: Seq<(Seq<char>, Seq<char>)>,
    pub header_params: Seq<(Seq<char>, Seq<char>)>,
    pub body: Option<JsonView>,
}

impl View for PreparedRequest {
    type V = PreparedRequestView;

    open spec fn view(&self) -> PreparedRequestView {
        PreparedRequestView {
            method: self.method@,
            relative_path: self.relative_path@,
            query: pair_texts(self.query@),
            header_params: pair_texts(self.header_params@),
            body: tree_of(self.body),
        }
    }
}

/// How a value is written into a path, a query or a header: a string as it is, null as
/// nothing, anything else as its JSON text.
pub open spec fn rendered(v: JsonView) -> Seq<char> {
    match v {
        JsonView::String(s) => s,
        JsonView::Bool(b) => if b {
            "true"@
        } else {
            "false"@
        },
        JsonView::Null => Seq::empty(),
        _ => json_text(v),
    }
}

/// How a value is written into a path, a query or a header.
pub fn scalar_to_string(value: &Json) -> (r: String)
    ensures
        r@ == rendered(value@),
{
    match value {
        Json::String(s) => s.clone(),
        Json::Bool(b) => if *b {
            "true".to_owned()
        } else {
            "false".to_owned()
        },
        Json::Null => String::new(),
        other => other.write(),
    }
}

/// The bytes that a path segment carries as they are: the unreserved characters of RFC 3986.
pub open spec fn unreserved(b: u8) -> bool {
    ||| 65 <= b <= 90
    ||| 97 <= b <= 122
    ||| 48 <= b <= 57
    ||| b == 45
    ||| b == 95
    ||| b == 46
    ||| b == 126
}

/// The hexadecimal digit for `d`, with capitals.
pub open spec fn hex_digit(d: u8) -> char {
    if d < 10 {
        (48 + d) as char
    } else {
        (55 + d) as char
    }
}

/// What stands in a path segment for the byte `b`.
pub open spec fn segment_byte(b: u8) -> Seq<char> {
    if unreserved(b) {
        seq![b as char]
    } else {
        seq!['%', hex_digit(b / 16), hex_digit(b % 16)]
    }
}

/// The bytes as a path segment: everything but the unreserved characters is escaped.
pub open spec fn percent_encoded(bytes: Seq<u8>) -> Seq<char>
    decreases bytes.len(),
{
    if bytes.len() == 0 {
        Seq::empty()
    } else {
        percent_encoded(bytes.drop_last()) + segment_byte(bytes.last())
    }
}

/// Percent-encodes a path segment. A `/` is escaped too, so a value cannot add segments.
pub fn percent_encode_path(s: &str) -> (r: String)
    ensures
        r@ == percent_encoded(encode_utf8(s@)),
{
    let bytes = s.as_bytes();
    let mut out = String::new();
    for i in 0..bytes.len()
        invariant
            bytes@ == encode_utf8(s@),
            out@ == percent_encoded(bytes@.take(i as int)),
    {
        let b: u8 = bytes[i];
        assert(bytes@.take(i + 1).drop_last() =~= bytes@.take(i as int));
        let ghost done = out@;
        let plain = (65 <= b && b <= 90) || (97 <= b && b <= 122) || (48 <= b && b <= 57) || b == 45
            || b == 95 || b == 46 || b == 126;
        if plain {
            out.push(b as char);
        } else {
            out.push('%');
            out.push(hex(b / 16));
            out.push(hex(b % 16));
        }
        assert(out@ =~= done + segment_byte(b));
    }
    assert(bytes@.take(bytes@.len() as int) =~= bytes@);
    out
}

/// The hexadecimal digit for `d`.
fn hex(d: u8) -> (r: char)
    requires
        d < 16,
    ensures
        r == hex_digit(d),
{
    if d < 10 {
        (48 + d) as char
    } else {
        (55 + d) as char
    }
}

/// Whether a path segment consists of dots alone.
pub open spec fn dots_only(s: Seq<char>) -> bool {
    s.len() > 0 && forall|i: int| 0 <= i < s.len() ==> #[trigger] s[i] == '.'
}

/// Whether a path parameter would form a dot segment.
///
/// A dot is unreserved, and an escaped dot counts as a dot where segments are removed. A
/// parameter of `..` would therefore leave the path of the operation, so it is refused.
pub fn is_dot_segment(s: &str) -> (r: bool)
    ensures
        r == dots_only(s@),
{
    let cs = chars_of(s);
    if cs.len() == 0 {
        return false;
    }
    for i in 0..cs.len()
        invariant
            cs@ == s@,
            forall|j: int| 0 <= j < i ==> #[trigger] cs@[j] == '.',
    {
        if cs[i] != '.' {
            assert(s@[i as int] != '.');
            return false;
        }
    }
    true
}

impl OperationPlanView {
    /// The argument for parameter `i`.
    pub open spec fn argument(self, args: JsonView, i: int) -> Option<JsonView> {
        if self.key_at(i).len() == 0 {
            None
        } else {
            args.get(self.key_at(i))
        }
    }

    /// The text that is sent for parameter `i` at `location`.
    pub open spec fn sent(self, args: JsonView, i: int, location: ParamLocation) -> Option<
        Seq<char>,
    > {
        match self.argument(args, i) {
            Some(v) if self.params[i].location == location => Some(rendered(v)),
            _ => None,
        }
    }

    /// The first parameter, from `i` on, whose argument is refused in a path.
    pub open spec fn refused_from(self, args: JsonView, i: int) -> Option<int>
        decreases self.params.len() - i,
    {
        if i < 0 || i >= self.params.len() {
            None
        } else {
            match self.sent(args, i, ParamLocation::Path) {
                Some(s) if dots_only(s) => Some(i),
                _ => self.refused_from(args, i + 1),
            }
        }
    }

    /// The path with the first `n` parameters filled in.
    pub open spec fn path_filled(self, args: JsonView, n: int) -> Seq<char>
        decreases n,
    {
        if n <= 0 {
            self.path_template
        } else {
            match self.sent(args, n - 1, ParamLocation::Path) {
                Some(s) => replace_all(
                    self.path_filled(args, n - 1),
                    "{"@ + self.params[n - 1].name + "}"@,
                    percent_encoded(encode_utf8(s)),
                ),
                None => self.path_filled(args, n - 1),
            }
        }
    }

    /// The names and texts that the first `n` parameters send at `location`.
    pub open spec fn pairs_sent(self, args: JsonView, n: int, location: ParamLocation) -> Seq<
        (Seq<char>, Seq<char>),
    >
        decreases n,
    {
        if n <= 0 {
            Seq::empty()
        } else {
            match self.sent(args, n - 1, location) {
                Some(s) => self.pairs_sent(args, n - 1, location).push(
                    (self.params[n - 1].name, s),
                ),
                None => self.pairs_sent(args, n - 1, location),
            }
        }
    }

    /// Whether a parameter takes the argument `key`.
    pub open spec fn claims(self, key: Seq<char>) -> bool {
        key.len() > 0 && self.keys().contains(key)
    }

    /// The arguments that no parameter takes.
    pub open spec fn unclaimed(self, es: Seq<(Seq<char>, JsonView)>) -> Seq<(Seq<char>, JsonView)>
        decreases es.len(),
    {
        if es.len() == 0 {
            Seq::empty()
        } else if self.claims(es.last().0) {
            self.unclaimed(es.drop_last())
        } else {
            self.unclaimed(es.drop_last()).push(es.last())
        }
    }

    /// The body of the request.
    pub open spec fn body_sent(self, args: JsonView) -> Option<JsonView> {
        match self.layout() {
            BodyLayout::Absent => None,
            BodyLayout::Wrapped => args.get("body"@),
            BodyLayout::Hoisted => Some(
                JsonView::Object(
                    match args.members() {
                        Some(es) => self.unclaimed(es),
                        None => Seq::empty(),
                    },
                ),
            ),
        }
    }

    /// The request that the arguments make, or why they make none.
    pub open spec fn request(self, args: JsonView) -> Result<PreparedRequestView, Seq<char>> {
        let n = self.params.len() as int;
        match self.refused_from(args, 0) {
            Some(i) => Err(
                "path parameter `"@ + self.params[i].name + "` must not consist only of dots"@,
            ),
            None => Ok(
                PreparedRequestView {
                    method: self.method,
                    relative_path: self.path_filled(args, n),
                    query: self.pairs_sent(args, n, ParamLocation::Query),
                    header_params: self.pairs_sent(args, n, ParamLocation::Header),
                    body: self.body_sent(args),
                },
            ),
        }
    }
}

/// Adds the pair of a copy of `name` and `value`.
fn push_pair(list: &mut Vec<(String, String)>, name: &String, value: String)
    ensures
        pair_texts(final(list)@) == pair_texts(old(list)@).push((name@, value@)),
{
    let ghost done = list@;
    list.push((name.clone(), value));
    assert(pair_texts(list@) =~= pair_texts(done).push((name@, value@)));
}

/// Spreads the arguments over path, query, headers and body as the plan lays it out.
pub fn build_request(plan: &OperationPlan, args: &Json) -> (r: Result<PreparedRequest, String>)
    ensures
        plan@.request(args@) == (match r {
            Ok(p) => Ok::<PreparedRequestView, Seq<char>>(p@),
            Err(e) => Err(e@),
        }),
{
    let keys = plan.param_keys();
    let ghost view = plan@;
    let ghost a = args@;
    let mut path = plan.path_template.clone();
    let mut query: Vec<(String, String)> = Vec::new();
    let mut header_params: Vec<(String, String)> = Vec::new();
    let n = plan.params.len();
    assert(pair_texts(query@) =~= Seq::empty());
    assert(pair_texts(header_params@) =~= Seq::empty());
    for i in 0..n
        invariant
            view == plan@,
            a == args@,
            n == plan.params@.len(),
            texts(keys@) == view.keys(),
            view.refused_from(a, 0) == view.refused_from(a, i as int),
            path@ == view.path_filled(a, i as int),
            pair_texts(query@) == view.pairs_sent(a, i as int, ParamLocation::Query),
            pair_texts(header_params@) == view.pairs_sent(a, i as int, ParamLocation::Header),
    {
        let p = &plan.params[i];
        assert(view.params[i as int] == p@);
        assert(texts(keys@).len() == n);
        assert(texts(keys@)[i as int] == view.key_at(i as int));
        let key = &keys[i];
        let argument = if key.as_str().is_empty() {
            None
        } else {
            args.get(key.as_str())
        };
        if let Some(value) = argument {
            let text = scalar_to_string(value);
            match p.location {
                ParamLocation::Path => {
                    if is_dot_segment(text.as_str()) {
                        return Err(
                            join3(
                                "path parameter `",
                                p.name.as_str(),
                                "` must not consist only of dots",
                            ),
                        );
                    }
                    proof {
                        reveal_strlit("{");
                    }
                    let placeholder = join3("{", p.name.as_str(), "}");
                    path = replaced(
                        path.as_str(),
                        placeholder.as_str(),
                        percent_encode_path(text.as_str()).as_str(),
                    );
                },
                ParamLocation::Query => {
                    push_pair(&mut query, &p.name, text);
                },
                ParamLocation::Header => {
                    push_pair(&mut header_params, &p.name, text);
                },
                ParamLocation::Cookie => {},
            }
        }
    }
    let body = match plan.body_layout() {
        BodyLayout::Absent => None,
        BodyLayout::Wrapped => match args.get("body") {
            Some(v) => Some(v.clone()),
            None => None,
        },
        BodyLayout::Hoisted => {
            let rest = match args.as_object() {
                Some(m) => leftover(plan, &keys, m),
                None => no_members(),
            };
            Some(Json::from_members(rest))
        },
    };
    Ok(
        PreparedRequest {
            method: plan.method.clone(),
            relative_path: path,
            query,
            header_params,
            body,
        },
    )
}

/// The arguments that no parameter takes.
fn leftover(plan: &OperationPlan, keys: &Vec<String>, m: &TextMap<Json>) -> (r: TextMap<Json>)
    requires
        texts(keys@) == plan@.keys(),
    ensures
        members(r) == plan@.unclaimed(members(*m)),
{
    let mut out = no_members();
    let ghost es = members(*m);
    m.show_order();
    let n = m.len();
    assert(es.take(0) =~= Seq::empty());
    for i in 0..n
        invariant
            n == m.entries().len(),
            es == members(*m),
            ascending(m.entries()),
            texts(keys@) == plan@.keys(),
            members(out) == plan@.unclaimed(es.take(i as int)),
            forall|j: int|
                0 <= j < members(out).len() ==> exists|k: int|
                    0 <= k < i && #[trigger] members(out)[j].0 == es[k].0,
    {
        let key = m.key_at(i);
        assert(es[i as int] == (key@, m.entries()[i as int].1@));
        assert(es.take(i + 1).drop_last() =~= es.take(i as int));
        if key.as_str().is_empty() || !is_one_of(keys, key) {
            assert forall|j: int| 0 <= j < members(out).len() implies before(
                #[trigger] members(out)[j].0,
                key@,
            ) by {
                let k = choose|k: int| 0 <= k < i && members(out)[j].0 == es[k].0;
                assert(es[k].0 == m.entries()[k].0);
            }
            put_last(&mut out, key, m.value_at(i).clone());
        }
    }
    assert(es.take(es.len() as int) =~= es);
    out
}

}
