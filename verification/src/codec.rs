//! JSON and YAML text, read and written by `serde_json` and `serde_yaml`.
use crate::json::{
    members, no_members, put_last, tree_of, tree_of_array, tree_of_object, trees, Json, JsonView,
};
use crate::text::{before, decimal};
use crate::text_map::ascending;
use vstd::prelude::*;
use vstd::utf8::encode_utf8;

verus! {

/// `serde_json::Value`, the document that the readers and writers exchange.
#[verifier::external_type_specification]
#[verifier::external_body]
pub struct ExValue(serde_json::Value);

/// The tree that a `serde_json::Value` holds.
pub uninterp spec fn value_tree(v: serde_json::Value) -> JsonView;

/// The JSON text that `serde_json` prints for a tree, without white space between tokens.
pub uninterp spec fn json_text(v: JsonView) -> Seq<char>;

/// What `serde_json::from_str` reads from a text, where it is a JSON document.
pub uninterp spec fn json_read(text: Seq<char>) -> Option<JsonView>;

/// What `serde_json::from_slice` reads from bytes, where they are a JSON document.
pub uninterp spec fn json_read_bytes(bytes: Seq<u8>) -> Option<JsonView>;

/// What `serde_yaml::from_str` reads from a text, or how it words its error.
pub uninterp spec fn yaml_read(text: Seq<char>) -> Result<JsonView, Seq<char>>;

/// The number that `serde_json::Number::from` makes of an unsigned integer.
pub uninterp spec fn number_of(n: u64) -> serde_json::Number;

/// One level of a `serde_json::Value`.
pub enum Node {
    Null,
    Bool(bool),
    Number(serde_json::Number),
    String(String),
    Array(Vec<serde_json::Value>),
    Object(Vec<(String, serde_json::Value)>),
}

/// The trees of the items of an array.
pub open spec fn value_trees(items: Seq<serde_json::Value>) -> Seq<JsonView> {
    items.map_values(|v: serde_json::Value| value_tree(v))
}

/// The names and trees of the members of an object.
pub open spec fn member_trees(entries: Seq<(String, serde_json::Value)>) -> Seq<
    (Seq<char>, JsonView),
> {
    entries.map_values(|e: (String, serde_json::Value)| (e.0@, value_tree(e.1)))
}

/// The tree that one level, with the values below it, stands for.
pub open spec fn node_tree(n: Node) -> JsonView {
    match n {
        Node::Null => JsonView::Null,
        Node::Bool(b) => JsonView::Bool(b),
        Node::Number(x) => JsonView::Number(x),
        Node::String(s) => JsonView::String(s@),
        Node::Array(items) => JsonView::Array(value_trees(items@)),
        Node::Object(entries) => JsonView::Object(member_trees(entries@)),
    }
}

/// Takes a `serde_json::Value` apart by its variants. Its tree is that of the level and
/// the values below; `serde_json::Map::into_iter` hands the members out in the order of
/// their names.
#[verifier::external_body]
fn open_value(v: serde_json::Value) -> (r: Node)
    ensures
        node_tree(r) == value_tree(v),
        r matches Node::Object(entries) ==> ascending(member_trees(entries@)),
{
    match v {
        serde_json::Value::Null => Node::Null,
        serde_json::Value::Bool(b) => Node::Bool(b),
        serde_json::Value::Number(n) => Node::Number(n),
        serde_json::Value::String(s) => Node::String(s),
        serde_json::Value::Array(items) => Node::Array(items),
        serde_json::Value::Object(m) => Node::Object(m.into_iter().collect()),
    }
}

/// Makes the variant of `serde_json::Value` that the level names. The members are
/// collected into a `serde_json::Map`, which keeps them in the order of their names.
#[verifier::external_body]
fn make_value(n: Node) -> (r: serde_json::Value)
    requires
        n matches Node::Object(entries) ==> ascending(member_trees(entries@)),
    ensures
        value_tree(r) == node_tree(n),
{
    match n {
        Node::Null => serde_json::Value::Null,
        Node::Bool(b) => serde_json::Value::Bool(b),
        Node::Number(x) => serde_json::Value::Number(x),
        Node::String(s) => serde_json::Value::String(s),
        Node::Array(items) => serde_json::Value::Array(items),
        Node::Object(entries) => serde_json::Value::Object(entries.into_iter().collect()),
    }
}

/// `serde_json::Value::to_string`: the JSON text of the value's tree.
#[verifier::external_body]
fn value_to_string(v: &serde_json::Value) -> (r: String)
    ensures
        r@ == json_text(value_tree(*v)),
{
    v.to_string()
}

/// `serde_json::to_vec`: the UTF-8 bytes of the JSON text. It fails only for maps with keys
/// other than strings and for types that refuse to be written, and a `Value` is neither.
#[verifier::external_body]
fn value_to_vec(v: &serde_json::Value) -> (r: Option<Vec<u8>>)
    ensures
        r is Some,
        r->Some_0@ == encode_utf8(json_text(value_tree(*v))),
{
    serde_json::to_vec(v).ok()
}

/// `serde_json::from_str`: the document in the text, or none where it is not JSON.
#[verifier::external_body]
fn value_from_str(text: &str) -> (r: Option<serde_json::Value>)
    ensures
        json_read(text@) == (match r {
            Some(v) => Some(value_tree(v)),
            None => None::<JsonView>,
        }),
{
    serde_json::from_str::<serde_json::Value>(text).ok()
}

/// `serde_json::from_slice`: the document in the bytes, or none where they are not JSON.
#[verifier::external_body]
fn value_from_slice(bytes: &[u8]) -> (r: Option<serde_json::Value>)
    ensures
        json_read_bytes(bytes@) == (match r {
            Some(v) => Some(value_tree(v)),
            None => None::<JsonView>,
        }),
{
    serde_json::from_slice::<serde_json::Value>(bytes).ok()
}

/// `serde_yaml::from_str`: the document in the text, or the wording of its error.
#[verifier::external_body]
fn value_from_yaml(text: &str) -> (r: Result<serde_json::Value, String>)
    ensures
        yaml_read(text@) == (match r {
            Ok(v) => Ok::<JsonView, Seq<char>>(value_tree(v)),
            Err(e) => Err(e@),
        }),
{
    serde_yaml::from_str::<serde_json::Value>(text).map_err(|e| e.to_string())
}

/// `serde_json::Number::from` on an unsigned integer. The number prints in decimal.
#[verifier::external_body]
fn number_from_u64(n: u64) -> (r: serde_json::Number)
    ensures
        r == number_of(n),
        json_text(JsonView::Number(r)) == decimal(n as nat),
{
    serde_json::Number::from(n)
}

impl Json {
    /// The number `n`.
    pub fn from_u64(n: u64) -> (r: Json)
        ensures
            r@ == JsonView::Number(number_of(n)),
            json_text(r@) == decimal(n as nat),
    {
        Json::Number(number_from_u64(n))
    }

    /// The document that a `serde_json::Value` holds.
    pub fn from_value(v: serde_json::Value) -> (r: Json)
        ensures
            r@ == value_tree(v),
        decreases value_tree(v),
    {
        let ghost tree = value_tree(v);
        match open_value(v) {
            Node::Null => Json::Null,
            Node::Bool(b) => Json::Bool(b),
            Node::Number(n) => Json::Number(n),
            Node::String(s) => Json::String(s),
            Node::Array(items) => {
                let mut out: Vec<Json> = Vec::new();
                let ghost values = items@;
                for item in it: items.into_iter()
                    invariant
                        it.seq() == values,
                        tree == value_tree(v),
                        tree == JsonView::Array(value_trees(values)),
                        trees(out@) == value_trees(values).take(it.index() as int),
                {
                    let ghost i = it.index() as int;
                    proof {
                        assert(value_trees(values)[i] == value_tree(item));
                        assert(decreases_to!(tree => tree->Array_0));
                        assert(decreases_to!(tree->Array_0 => tree->Array_0[i]));
                    }
                    let ghost done = out@;
                    let next = Json::from_value(item);
                    out.push(next);
                    assert(trees(done.push(next)) =~= trees(done).push(next@));
                    assert(value_trees(values).take(i).push(value_trees(values)[i])
                        =~= value_trees(values).take(i + 1));
                }
                assert(value_trees(values).take(values.len() as int) =~= value_trees(values));
                Json::from_items(out)
            },
            Node::Object(entries) => {
                let mut out = no_members();
                let ghost pairs = entries@;
                let ghost all = member_trees(pairs);
                assert(all.take(0) =~= members(out));
                for entry in it: entries.into_iter()
                    invariant
                        it.seq() == pairs,
                        all == member_trees(pairs),
                        ascending(all),
                        tree == value_tree(v),
                        tree == JsonView::Object(all),
                        members(out) == all.take(it.index() as int),
                {
                    let ghost i = it.index() as int;
                    proof {
                        assert(all[i] == (entry.0@, value_tree(entry.1)));
                        assert(decreases_to!(tree => tree->Object_0));
                        assert(decreases_to!(tree->Object_0 => tree->Object_0[i]));
                        assert(decreases_to!(all[i] => all[i].1));
                        assert(all.take(i).push(all[i]) =~= all.take(i + 1));
                        assert forall|j: int| 0 <= j < members(out).len() implies before(
                            #[trigger] members(out)[j].0,
                            entry.0@,
                        ) by {
                            assert(members(out)[j] == all[j]);
                            assert(before(all[j].0, all[i].0));
                        }
                    }
                    put_last(&mut out, &entry.0, Json::from_value(entry.1));
                }
                assert(all.take(all.len() as int) =~= all);
                Json::from_members(out)
            },
        }
    }

    /// The document as a `serde_json::Value`.
    pub fn to_value(&self) -> (r: serde_json::Value)
        ensures
            value_tree(r) == self@,
        decreases self,
    {
        match self {
            Json::Null => make_value(Node::Null),
            Json::Bool(b) => make_value(Node::Bool(*b)),
            Json::Number(n) => make_value(Node::Number(n.clone())),
            Json::String(s) => make_value(Node::String(s.clone())),
            Json::Array(items) => {
                let mut out: Vec<serde_json::Value> = Vec::new();
                for i in 0..items.len()
                    invariant
                        *self == Json::Array(*items),
                        value_trees(out@) == trees(items@).take(i as int),
                {
                    proof {
                        assert(decreases_to!(*self => self->Array_0));
                        assert(decreases_to!(*items => items@));
                        assert(decreases_to!(items@ => items@[i as int]));
                    }
                    let ghost done = out@;
                    let next = items[i].to_value();
                    out.push(next);
                    assert(value_trees(done.push(next)) =~= value_trees(done).push(
                        value_tree(next),
                    ));
                    assert(trees(items@).take(i as int).push(trees(items@)[i as int]) =~= trees(
                        items@,
                    ).take(i + 1));
                }
                proof {
                    tree_of_array(*items);
                    assert(trees(items@).take(items@.len() as int) =~= trees(items@));
                }
                make_value(Node::Array(out))
            },
            Json::Object(m) => {
                let mut out: Vec<(String, serde_json::Value)> = Vec::new();
                m.show_order();
                let n = m.len();
                assert(member_trees(out@) =~= members(*m).take(0));
                for i in 0..n
                    invariant
                        n == m.entries().len(),
                        *self == Json::Object(*m),
                        member_trees(out@) == members(*m).take(i as int),
                {
                    proof {
                        m.entry_is_smaller(i as int);
                        assert(decreases_to!(*self => self->Object_0));
                    }
                    let ghost done = out@;
                    let key = m.key_at(i).clone();
                    let next = m.value_at(i).to_value();
                    out.push((key, next));
                    assert(member_trees(done.push((key, next))) =~= member_trees(done).push(
                        (key@, value_tree(next)),
                    ));
                    assert(members(*m).take(i as int).push(members(*m)[i as int]) =~= members(
                        *m,
                    ).take(i + 1));
                }
                proof {
                    tree_of_object(*m);
                    assert(members(*m).take(members(*m).len() as int) =~= members(*m));
                    assert forall|i: int, j: int| 0 <= i < j < members(*m).len() implies before(
                        #[trigger] members(*m)[i].0,
                        #[trigger] members(*m)[j].0,
                    ) by {
                        assert(members(*m)[i].0 == m.entries()[i].0);
                        assert(members(*m)[j].0 == m.entries()[j].0);
                    }
                }
                make_value(Node::Object(out))
            },
        }
    }

    /// The document that a JSON text holds.
    pub fn read(text: &str) -> (r: Option<Json>)
        ensures
            tree_of(r) == json_read(text@),
    {
        match value_from_str(text) {
            Some(v) => Some(Json::from_value(v)),
            None => None,
        }
    }

    /// The document that JSON bytes hold.
    pub fn read_bytes(bytes: &[u8]) -> (r: Option<Json>)
        ensures
            tree_of(r) == json_read_bytes(bytes@),
    {
        match value_from_slice(bytes) {
            Some(v) => Some(Json::from_value(v)),
            None => None,
        }
    }

    /// The document that a YAML text holds, or why it cannot be read.
    pub fn read_yaml(text: &str) -> (r: Result<Json, String>)
        ensures
            match r {
                Ok(j) => yaml_read(text@) == Ok::<JsonView, Seq<char>>(j@),
                Err(e) => yaml_read(text@) == Err::<JsonView, Seq<char>>(e@),
            },
    {
        match value_from_yaml(text) {
            Ok(v) => Ok(Json::from_value(v)),
            Err(e) => Err(e),
        }
    }

    /// The JSON text of the document.
    pub fn write(&self) -> (r: String)
        ensures
            r@ == json_text(self@),
    {
        value_to_string(&self.to_value())
    }

    /// The JSON text of the document, as bytes.
    pub fn write_bytes(&self) -> (r: Option<Vec<u8>>)
        ensures
            r is Some,
            r->Some_0@ == encode_utf8(json_text(self@)),
    {
        value_to_vec(&self.to_value())
    }
}

}
