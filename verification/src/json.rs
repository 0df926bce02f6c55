//! JSON documents as trees, and how they are read.
use crate::text::{before, chars_of, replace_all, replaced, text_between};
use crate::text_map::{
    ascending, lookup, lookup_in_mapped, mapped, with_entry, with_entry_in_mapped, TextMap,
};
use vstd::prelude::*;

verus! {

/// A JSON number. Documents carry it through unread.
#[verifier::external_type_specification]
#[verifier::external_body]
pub struct ExNumber(serde_json::Number);

/// `serde_json::Number::clone`: the copy is the same number.
pub assume_specification[ <serde_json::Number as Clone>::clone ](n: &serde_json::Number) -> (r:
    serde_json::Number)
    ensures
        r == *n,
;

/// What a JSON document is. The members of an object stand in the order of their names.
pub enum JsonView {
    Null,
    Bool(bool),
    Number(serde_json::Number),
    String(Seq<char>),
    Array(Seq<JsonView>),
    Object(Seq<(Seq<char>, JsonView)>),
}

/// A JSON document.
#[derive(Debug, PartialEq)]
pub enum Json {
    Null,
    Bool(bool),
    Number(serde_json::Number),
    String(String),
    Array(Vec<Json>),
    Object(TextMap<Json>),
}

impl Json {
    /// The tree that the document stands for.
    pub open spec fn tree(self) -> JsonView
        decreases self,
    {
        match self {
            Json::Null => JsonView::Null,
            Json::Bool(b) => JsonView::Bool(b),
            Json::Number(n) => JsonView::Number(n),
            Json::String(s) => JsonView::String(s@),
            Json::Array(items) => JsonView::Array(
                Seq::new(
                    items@.len(),
                    |i: int|
                        if 0 <= i < items@.len() {
                            items@[i].tree()
                        } else {
                            JsonView::Null
                        },
                ),
            ),
            Json::Object(members) => JsonView::Object(
                Seq::new(
                    members.entries().len(),
                    |i: int|
                        if 0 <= i < members.entries().len() {
                            proof {
                                members.entry_is_smaller(i);
                            }
                            (members.entries()[i].0, members.entries()[i].1.tree())
                        } else {
                            (Seq::empty(), JsonView::Null)
                        },
                ),
            ),
        }
    }
}

impl View for Json {
    type V = JsonView;

    open spec fn view(&self) -> JsonView {
        self.tree()
    }
}

/// The function that takes a document to its tree.
pub open spec fn to_tree() -> spec_fn(Json) -> JsonView {
    |j: Json| j@
}

/// The trees of a list of documents.
pub open spec fn trees(items: Seq<Json>) -> Seq<JsonView> {
    items.map_values(to_tree())
}

/// The members of an object, as trees.
pub open spec fn members(m: TextMap<Json>) -> Seq<(Seq<char>, JsonView)> {
    mapped(m.entries(), to_tree())
}

/// The tree of a document that may be missing.
pub open spec fn tree_of(v: Option<Json>) -> Option<JsonView> {
    match v {
        Some(j) => Some(j@),
        None => None,
    }
}

/// The tree of an array holds the trees of its items.
pub proof fn tree_of_array(items: Vec<Json>)
    ensures
        Json::Array(items)@ == JsonView::Array(trees(items@)),
{
    assert(Json::Array(items)@->Array_0 =~= trees(items@));
}

/// The tree of an object holds the trees of its members.
pub proof fn tree_of_object(m: TextMap<Json>)
    ensures
        Json::Object(m)@ == JsonView::Object(members(m)),
{
    assert(Json::Object(m)@->Object_0 =~= members(m));
}

impl JsonView {
    /// The member of an object under `key`.
    pub open spec fn get(self, key: Seq<char>) -> Option<JsonView> {
        match self {
            JsonView::Object(es) => lookup(es, key),
            _ => None,
        }
    }

    /// The text of a string.
    pub open spec fn text(self) -> Option<Seq<char>> {
        match self {
            JsonView::String(s) => Some(s),
            _ => None,
        }
    }

    /// The value of a boolean.
    pub open spec fn flag(self) -> Option<bool> {
        match self {
            JsonView::Bool(b) => Some(b),
            _ => None,
        }
    }

    /// The items of an array.
    pub open spec fn items(self) -> Option<Seq<JsonView>> {
        match self {
            JsonView::Array(s) => Some(s),
            _ => None,
        }
    }

    /// The members of an object.
    pub open spec fn members(self) -> Option<Seq<(Seq<char>, JsonView)>> {
        match self {
            JsonView::Object(es) => Some(es),
            _ => None,
        }
    }

    /// The text under `key`.
    pub open spec fn text_at(self, key: Seq<char>) -> Option<Seq<char>> {
        match self.get(key) {
            Some(v) => v.text(),
            None => None,
        }
    }

    /// The boolean under `key`.
    pub open spec fn flag_at(self, key: Seq<char>) -> Option<bool> {
        match self.get(key) {
            Some(v) => v.flag(),
            None => None,
        }
    }

    /// The items of the array under `key`.
    pub open spec fn items_at(self, key: Seq<char>) -> Option<Seq<JsonView>> {
        match self.get(key) {
            Some(v) => v.items(),
            None => None,
        }
    }

    /// The members of the object under `key`.
    pub open spec fn members_at(self, key: Seq<char>) -> Option<Seq<(Seq<char>, JsonView)>> {
        match self.get(key) {
            Some(v) => v.members(),
            None => None,
        }
    }
}

/// The characters of `p` before its first `/`.
pub open spec fn first_token(p: Seq<char>) -> Seq<char>
    decreases p.len(),
{
    if p.len() == 0 || p[0] == '/' {
        Seq::empty()
    } else {
        seq![p[0]] + first_token(p.skip(1))
    }
}

/// The first token is no longer than the text.
pub proof fn first_token_fits(p: Seq<char>)
    ensures
        first_token(p).len() <= p.len(),
    decreases p.len(),
{
    if p.len() > 0 {
        first_token_fits(p.skip(1));
    }
}

/// A token of a pointer with `~1` read as `/` and then `~0` as `~`.
#[verifier::opaque]
pub open spec fn unescaped(token: Seq<char>) -> Seq<char> {
    replace_all(replace_all(token, seq!['~', '1'], seq!['/']), seq!['~', '0'], seq!['~'])
}

/// Whether `token` is a decimal number without sign or leading zeros.
pub open spec fn is_index(token: Seq<char>) -> bool {
    &&& token.len() > 0
    &&& token.len() > 1 ==> token[0] != '0'
    &&& forall|i: int| 0 <= i < token.len() ==> '0' <= #[trigger] token[i] <= '9'
}

/// The number that the decimal digits of `token` stand for.
pub open spec fn index_value(token: Seq<char>) -> nat
    decreases token.len(),
{
    if token.len() == 0 {
        0
    } else {
        index_value(token.drop_last()) * 10 + (token.last() as nat - 48) as nat
    }
}

/// What `token` selects in `v`: a member of an object, or an item of an array.
pub open spec fn step(v: JsonView, token: Seq<char>) -> Option<JsonView> {
    match v {
        JsonView::Object(es) => lookup(es, token),
        JsonView::Array(items) => if is_index(token) && index_value(token) < items.len() {
            Some(items[index_value(token) as int])
        } else {
            None
        },
        _ => None,
    }
}

/// What the JSON pointer `p` selects in `v`: `/a/b` is the member `b` of the member `a`,
/// and the empty pointer is `v` itself.
pub open spec fn pointed(v: JsonView, p: Seq<char>) -> Option<JsonView>
    decreases p.len(),
{
    if p.len() == 0 {
        Some(v)
    } else if p[0] != '/' {
        None
    } else {
        let token = first_token(p.skip(1));
        proof {
            first_token_fits(p.skip(1));
        }
        match step(v, unescaped(token)) {
            Some(next) => pointed(next, p.skip(1 + token.len() as int)),
            None => None,
        }
    }
}

/// A pointer selects with its first token and then with what follows it.
proof fn pointed_by_steps(v: JsonView, p: Seq<char>)
    requires
        p.len() > 0,
    ensures
        p[0] != '/' ==> pointed(v, p) is None,
        p[0] == '/' ==> ({
            let token = first_token(p.skip(1));
            pointed(v, p) == (match step(v, unescaped(token)) {
                Some(next) => pointed(next, p.skip(1 + token.len() as int)),
                None => None,
            })
        }),
{
}

/// The members that result where `pairs` are put into an object one after the other.
pub open spec fn object_of(pairs: Seq<(Seq<char>, JsonView)>) -> Seq<(Seq<char>, JsonView)>
    decreases pairs.len(),
{
    if pairs.len() == 0 {
        Seq::empty()
    } else {
        with_entry(object_of(pairs.drop_last()), pairs.last().0, pairs.last().1)
    }
}

/// The names and trees of `pairs`.
pub open spec fn pair_trees(pairs: Seq<(&'static str, Json)>) -> Seq<(Seq<char>, JsonView)> {
    pairs.map_values(|p: (&'static str, Json)| (p.0@, p.1@))
}

/// The object with the members `pairs`.
pub fn object(pairs: Vec<(&'static str, Json)>) -> (r: Json)
    ensures
        r@ == JsonView::Object(object_of(pair_trees(pairs@))),
{
    let mut m = no_members();
    let ghost all = pair_trees(pairs@);
    let ghost list = pairs@;
    for pair in it: pairs.into_iter()
        invariant
            it.seq() == list,
            all == pair_trees(list),
            members(m) == object_of(all.take(it.index() as int)),
    {
        let ghost i = it.index() as int;
        assert(all.take(i + 1).drop_last() =~= all.take(i));
        assert(all[i] == (pair.0@, pair.1@));
        put(&mut m, pair.0, pair.1);
    }
    assert(all.take(all.len() as int) =~= all);
    Json::from_members(m)
}

/// Puts `value` into the object under `key`.
pub fn put(m: &mut TextMap<Json>, key: &str, value: Json)
    ensures
        members(*final(m)) == with_entry(members(*old(m)), key@, value@),
{
    proof {
        with_entry_in_mapped(m.entries(), to_tree(), key@, value);
    }
    m.insert(key.to_owned(), value);
}

/// Puts `value` into the object under `key`, which stands after all its names.
pub fn put_last(m: &mut TextMap<Json>, key: &String, value: Json)
    requires
        forall|i: int|
            0 <= i < members(*old(m)).len() ==> before(#[trigger] members(*old(m))[i].0, key@),
    ensures
        members(*final(m)) == members(*old(m)).push((key@, value@)),
{
    assert forall|i: int| 0 <= i < m.entries().len() implies before(
        #[trigger] m.entries()[i].0,
        key@,
    ) by {
        assert(members(*m)[i].0 == m.entries()[i].0);
    }
    let ghost es = m.entries();
    m.insert_last(key.clone(), value);
    assert(members(*m) =~= mapped(es, to_tree()).push((key@, value@)));
}

/// The object without members.
pub fn no_members() -> (m: TextMap<Json>)
    ensures
        members(m) == Seq::<(Seq<char>, JsonView)>::empty(),
{
    let m: TextMap<Json> = TextMap::new();
    assert(members(m) =~= Seq::<(Seq<char>, JsonView)>::empty());
    m
}

impl Clone for Json {
    fn clone(&self) -> (r: Self)
        ensures
            r@ == self@,
        decreases self,
    {
        match self {
            Json::Null => Json::Null,
            Json::Bool(b) => Json::Bool(*b),
            Json::Number(n) => Json::Number(n.clone()),
            Json::String(s) => Json::String(s.clone()),
            Json::Array(items) => {
                let mut out: Vec<Json> = Vec::new();
                for i in 0..items.len()
                    invariant
                        *self == Json::Array(*items),
                        trees(out@) == trees(items@).take(i as int),
                {
                    proof {
                        assert(decreases_to!(*self => self->Array_0));
                        assert(decreases_to!(*items => items@));
                        assert(decreases_to!(items@ => items@[i as int]));
                    }
                    let item = items[i].clone();
                    let ghost before = out@;
                    out.push(item);
                    assert(trees(before.push(item)) =~= trees(before).push(item@));
                    assert(trees(items@).take(i as int).push(trees(items@)[i as int]) =~= trees(
                        items@,
                    ).take(i + 1));
                }
                proof {
                    assert(trees(items@).take(items@.len() as int) =~= trees(items@));
                    tree_of_array(out);
                    tree_of_array(*items);
                }
                Json::Array(out)
            },
            Json::Object(m) => {
                let mut out = no_members();
                m.show_order();
                assert(members(out) =~= members(*m).take(0));
                let n = m.len();
                for i in 0..n
                    invariant
                        n == m.entries().len(),
                        *self == Json::Object(*m),
                        members(out) == members(*m).take(i as int),
                        ascending(m.entries()),
                {
                    proof {
                        m.entry_is_smaller(i as int);
                        assert(decreases_to!(*self => self->Object_0));
                    }
                    put_last(&mut out, m.key_at(i), m.value_at(i).clone());
                    assert(members(*m).take(i as int).push(members(*m)[i as int]) =~= members(
                        *m,
                    ).take(i + 1));
                }
                proof {
                    assert(members(*m).take(members(*m).len() as int) =~= members(*m));
                    tree_of_object(out);
                    tree_of_object(*m);
                }
                Json::Object(out)
            },
        }
    }
}

/// A copy of the members of an object.
pub fn copy_members(m: &TextMap<Json>) -> (r: TextMap<Json>)
    ensures
        members(r) == members(*m),
{
    let mut out = no_members();
    m.show_order();
    assert(members(out) =~= members(*m).take(0));
    let n = m.len();
    for i in 0..n
        invariant
            n == m.entries().len(),
            members(out) == members(*m).take(i as int),
            ascending(m.entries()),
    {
        put_last(&mut out, m.key_at(i), m.value_at(i).clone());
        assert(members(*m).take(i as int).push(members(*m)[i as int]) =~= members(*m).take(i + 1));
    }
    assert(members(*m).take(members(*m).len() as int) =~= members(*m));
    out
}

impl Json {
    /// The string with the contents `s`.
    pub fn from_text(s: &str) -> (r: Json)
        ensures
            r@ == JsonView::String(s@),
    {
        Json::String(s.to_owned())
    }

    /// The object with the members `m`.
    pub fn from_members(m: TextMap<Json>) -> (r: Json)
        ensures
            r@ == JsonView::Object(members(m)),
    {
        proof {
            tree_of_object(m);
        }
        Json::Object(m)
    }

    /// The array of `items`.
    pub fn from_items(items: Vec<Json>) -> (r: Json)
        ensures
            r@ == JsonView::Array(trees(items@)),
    {
        proof {
            tree_of_array(items);
        }
        Json::Array(items)
    }

    /// The member of an object under `key`.
    pub fn get(&self, key: &str) -> (r: Option<&Json>)
        ensures
            match r {
                Some(v) => self@.get(key@) == Some(v@),
                None => self@.get(key@) is None,
            },
    {
        match self {
            Json::Object(m) => {
                proof {
                    tree_of_object(*m);
                    lookup_in_mapped(m.entries(), to_tree(), key@);
                }
                m.get(key)
            },
            _ => None,
        }
    }

    /// The text of a string.
    pub fn as_str(&self) -> (r: Option<&str>)
        ensures
            match r {
                Some(s) => self@.text() == Some(s@),
                None => self@.text() is None,
            },
    {
        match self {
            Json::String(s) => Some(s.as_str()),
            _ => None,
        }
    }

    /// The value of a boolean.
    pub fn as_bool(&self) -> (r: Option<bool>)
        ensures
            r == self@.flag(),
    {
        match self {
            Json::Bool(b) => Some(*b),
            _ => None,
        }
    }

    /// The items of an array.
    pub fn as_array(&self) -> (r: Option<&Vec<Json>>)
        ensures
            match r {
                Some(items) => self@.items() == Some(trees(items@)),
                None => self@.items() is None,
            },
    {
        match self {
            Json::Array(items) => {
                proof {
                    tree_of_array(*items);
                }
                Some(items)
            },
            _ => None,
        }
    }

    /// The members of an object.
    pub fn as_object(&self) -> (r: Option<&TextMap<Json>>)
        ensures
            match r {
                Some(m) => self@.members() == Some(members(*m)),
                None => self@.members() is None,
            },
    {
        match self {
            Json::Object(m) => {
                proof {
                    tree_of_object(*m);
                }
                Some(m)
            },
            _ => None,
        }
    }

    /// The text under `key`.
    pub fn text_at(&self, key: &str) -> (r: Option<&str>)
        ensures
            match r {
                Some(s) => self@.text_at(key@) == Some(s@),
                None => self@.text_at(key@) is None,
            },
    {
        match self.get(key) {
            Some(v) => v.as_str(),
            None => None,
        }
    }

    /// The boolean under `key`.
    pub fn flag_at(&self, key: &str) -> (r: Option<bool>)
        ensures
            r == self@.flag_at(key@),
    {
        match self.get(key) {
            Some(v) => v.as_bool(),
            None => None,
        }
    }

    /// The items of the array under `key`.
    pub fn items_at(&self, key: &str) -> (r: Option<&Vec<Json>>)
        ensures
            match r {
                Some(items) => self@.items_at(key@) == Some(trees(items@)),
                None => self@.items_at(key@) is None,
            },
    {
        match self.get(key) {
            Some(v) => v.as_array(),
            None => None,
        }
    }

    /// The members of the object under `key`.
    pub fn members_at(&self, key: &str) -> (r: Option<&TextMap<Json>>)
        ensures
            match r {
                Some(m) => self@.members_at(key@) == Some(members(*m)),
                None => self@.members_at(key@) is None,
            },
    {
        match self.get(key) {
            Some(v) => v.as_object(),
            None => None,
        }
    }

    /// What the JSON pointer `pointer` selects.
    pub fn pointer(&self, pointer: &str) -> (r: Option<&Json>)
        ensures
            match r {
                Some(v) => pointed(self@, pointer@) == Some(v@),
                None => pointed(self@, pointer@) is None,
            },
    {
        let cs = chars_of(pointer);
        let mut at: usize = 0;
        let mut current = self;
        assert(cs@.skip(0) =~= cs@);
        while at < cs.len()
            invariant
                cs@ == pointer@,
                at <= cs@.len(),
                pointed(self@, pointer@) == pointed(current@, cs@.skip(at as int)),
            decreases cs@.len() - at,
        {
            let ghost p = cs@.skip(at as int);
            let ghost v = current@;
            proof {
                pointed_by_steps(v, p);
            }
            if cs[at] != '/' {
                return None;
            }
            let end = token_end(&cs, at + 1);
            assert(p.skip(1) =~= cs@.skip(at + 1));
            let token = text_between(&cs, at + 1, end);
            assert(p.skip(1 + token@.len() as int) =~= cs@.skip(end as int));
            match current.child(unescape(&token).as_str()) {
                Some(next) => {
                    current = next;
                },
                None => {
                    return None;
                },
            }
            at = end;
        }
        Some(current)
    }

    /// What `token` selects in the document.
    fn child(&self, token: &str) -> (r: Option<&Json>)
        ensures
            match r {
                Some(v) => step(self@, token@) == Some(v@),
                None => step(self@, token@) is None,
            },
    {
        match self {
            Json::Array(items) => {
                proof {
                    tree_of_array(*items);
                }
                match read_index(token, items.len()) {
                    Some(i) => Some(&items[i]),
                    None => None,
                }
            },
            Json::Object(_) => self.get(token),
            _ => None,
        }
    }
}

/// Where the token that begins at `from` ends.
fn token_end(cs: &Vec<char>, from: usize) -> (end: usize)
    requires
        from <= cs@.len(),
    ensures
        from <= end <= cs@.len(),
        cs@.subrange(from as int, end as int) == first_token(cs@.skip(from as int)),
{
    let mut end: usize = from;
    assert(cs@.subrange(from as int, from as int) =~= Seq::<char>::empty());
    while end < cs.len() && cs[end] != '/'
        invariant
            from <= end <= cs@.len(),
            first_token(cs@.skip(from as int)) =~= cs@.subrange(from as int, end as int)
                + first_token(cs@.skip(end as int)),
        decreases cs@.len() - end,
    {
        assert(cs@.skip(end as int).skip(1) =~= cs@.skip(end + 1));
        assert(cs@.subrange(from as int, end as int) + seq![cs@[end as int]] =~= cs@.subrange(
            from as int,
            end + 1,
        ));
        end = end + 1;
    }
    end
}

/// A token with its escapes read.
fn unescape(token: &String) -> (r: String)
    ensures
        r@ == unescaped(token@),
{
    proof {
        reveal(unescaped);
        reveal_strlit("~1");
        reveal_strlit("/");
        reveal_strlit("~0");
        reveal_strlit("~");
        assert("~1"@ =~= seq!['~', '1']);
        assert("/"@ =~= seq!['/']);
        assert("~0"@ =~= seq!['~', '0']);
        assert("~"@ =~= seq!['~']);
    }
    let slashes = replaced(token.as_str(), "~1", "/");
    replaced(slashes.as_str(), "~0", "~")
}

/// The index that `token` names, where it is below `bound`.
fn read_index(token: &str, bound: usize) -> (r: Option<usize>)
    ensures
        match r {
            Some(i) => is_index(token@) && index_value(token@) == i && i < bound,
            None => !(is_index(token@) && index_value(token@) < bound),
        },
{
    let cs = chars_of(token);
    if cs.len() == 0 || (cs.len() > 1 && cs[0] == '0') {
        return None;
    }
    let mut value: usize = 0;
    for i in 0..cs.len()
        invariant
            cs@ == token@,
            value == index_value(cs@.take(i as int)),
            i > 0 ==> value < bound,
            forall|j: int| 0 <= j < i ==> '0' <= #[trigger] cs@[j] <= '9',
    {
        let c: char = cs[i];
        if !('0' <= c && c <= '9') {
            return None;
        }
        let d: usize = (c as u8 - 48) as usize;
        assert(cs@.take(i + 1).drop_last() =~= cs@.take(i as int));
        if value > (usize::MAX - d) / 10 || value * 10 + d >= bound {
            proof {
                index_value_grows(cs@, i + 1);
            }
            return None;
        }
        value = value * 10 + d;
    }
    assert(cs@.take(cs@.len() as int) =~= cs@);
    Some(value)
}

/// More digits never make a smaller number.
proof fn index_value_grows(token: Seq<char>, n: int)
    requires
        0 <= n <= token.len(),
    ensures
        index_value(token.take(n)) <= index_value(token),
    decreases token.len() - n,
{
    if n < token.len() {
        index_value_grows(token, n + 1);
        assert(token.take(n + 1).drop_last() =~= token.take(n));
    } else {
        assert(token.take(n) =~= token);
    }
}

}
