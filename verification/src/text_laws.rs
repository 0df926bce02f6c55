//! What the building blocks do: texts and their order, maps, and the parts of a document.
use crate::json::{tree_of_array, tree_of_object, Json, JsonView};
use crate::text::{
    before, before_is_total, blank, has_part, pair_texts, replace_all, text_of, texts, white_space,
    without_leading, without_trailing,
};
use crate::text_map::{
    ascending, lookup, lookup_finds_entry, text_entries, with_entry, with_entry_keeps_order,
    TextMap,
};
use vstd::prelude::*;

verus! {

/// Texts are ordered by the first character in which they differ; where there is none, the
/// shorter one comes first.
pub proof fn first_difference_decides(
    p: Seq<char>,
    a: char,
    b: char,
    x: Seq<char>,
    y: Seq<char>,
)
    requires
        a < b,
    ensures
        before(p + seq![a] + x, p + seq![b] + y),
        !before(p + seq![b] + y, p + seq![a] + x),
        before(p, p + seq![a] + x),
        !before(p + seq![a] + x, p),
    decreases p.len(),
{
    let s = p + seq![a] + x;
    let t = p + seq![b] + y;
    if p.len() > 0 {
        let q = p.drop_first();
        first_difference_decides(q, a, b, x, y);
        assert(s.drop_first() =~= q + seq![a] + x);
        assert(t.drop_first() =~= q + seq![b] + y);
        assert(s[0] == p[0] && t[0] == p[0]);
    } else {
        assert(s[0] == a && t[0] == b);
    }
}

/// What stands under a key is what its first entry holds.
pub proof fn first_entry_is_found<T>(es: Seq<(Seq<char>, T)>, i: int)
    requires
        0 <= i < es.len(),
        forall|j: int| 0 <= j < i ==> (#[trigger] es[j]).0 != es[i].0,
    ensures
        lookup(es, es[i].0) == Some(es[i].1),
    decreases es.len(),
{
    if i > 0 {
        let rest = es.skip(1);
        assert(es[0].0 != es[i].0);
        assert(rest[i - 1] == es[i]);
        assert forall|j: int| 0 <= j < i - 1 implies (#[trigger] rest[j]).0 != rest[i - 1].0 by {
            assert(rest[j] == es[j + 1]);
        }
        first_entry_is_found(rest, i - 1);
    }
}

/// An insertion adds one entry for a new key and none for a key that is there.
pub proof fn insertion_adds_at_most_one<T>(es: Seq<(Seq<char>, T)>, key: Seq<char>, value: T)
    requires
        ascending(es),
    ensures
        ascending(with_entry(es, key, value)),
        with_entry(es, key, value).len() == es.len() + if lookup(es, key) is Some {
            0int
        } else {
            1int
        },
    decreases es.len(),
{
    with_entry_keeps_order(es, key, value);
    if es.len() > 0 {
        let rest = es.skip(1);
        assert(ascending(rest));
        insertion_adds_at_most_one(rest, key, value);
        if before(key, es[0].0) && es[0].0 != key {
            lookup_finds_entry(rest, key);
            if let Some(v) = lookup(rest, key) {
                let j = choose|j: int| 0 <= j < rest.len() && #[trigger] rest[j] == (key, v);
                assert(rest[j] == es[j + 1]);
                assert(before(es[0].0, es[j + 1].0));
                before_is_total(key, es[0].0);
            }
        }
    }
}

/// What the parts of a document are read as: the members of an object by name, and each kind of
/// value as itself and as no other.
pub proof fn values_are_read_as_they_are(v: JsonView, key: Seq<char>)
    ensures
        v is Object ==> v.get(key) == lookup(v->Object_0, key),
        !(v is Object) ==> v.get(key) is None,
        v.text() == (if v is String {
            Some(v->String_0)
        } else {
            None
        }),
        v.flag() == (if v is Bool {
            Some(v->Bool_0)
        } else {
            None
        }),
        v.items() == (if v is Array {
            Some(v->Array_0)
        } else {
            None
        }),
        v.members() == (if v is Object {
            Some(v->Object_0)
        } else {
            None
        }),
        v.text_at(key) == (match v.get(key) {
            Some(JsonView::String(s)) => Some(s),
            _ => None,
        }),
        v.flag_at(key) == (match v.get(key) {
            Some(JsonView::Bool(b)) => Some(b),
            _ => None,
        }),
        v.items_at(key) == (match v.get(key) {
            Some(JsonView::Array(items)) => Some(items),
            _ => None,
        }),
        v.members_at(key) == (match v.get(key) {
            Some(JsonView::Object(es)) => Some(es),
            _ => None,
        }),
{
}

/// A text has a part exactly where it is something, the part, and something more.
pub proof fn part_stands_somewhere(s: Seq<char>, part: Seq<char>, i: int)
    ensures
        0 <= i && i + part.len() <= s.len() && s.subrange(i, i + part.len()) == part ==> has_part(
            s,
            part,
        ),
        has_part(s, part) ==> exists|j: int|
            0 <= j && j + part.len() <= s.len() && #[trigger] s.subrange(j, j + part.len()) == part,
{
    if 0 <= i && i + part.len() <= s.len() && s.subrange(i, i + part.len()) == part {
        assert(s.skip(i).subrange(0, part.len() as int) =~= part);
        assert(part.is_prefix_of(s.skip(i)));
    }
    if has_part(s, part) {
        let j = choose|j: int| 0 <= j <= s.len() && #[trigger] part.is_prefix_of(s.skip(j));
        assert(s.subrange(j, j + part.len()) =~= s.skip(j).subrange(0, part.len() as int));
    }
}

/// Taking a run off the start of a text leaves what follows it.
pub proof fn leading_run_is_taken_off(s: Seq<char>, c: char) -> (n: int)
    ensures
        0 <= n <= s.len(),
        forall|i: int| 0 <= i < n ==> #[trigger] s[i] == c,
        n < s.len() ==> s[n] != c,
        without_leading(s, c) == s.skip(n),
    decreases s.len(),
{
    if s.len() > 0 && s[0] == c {
        let rest = s.drop_first();
        let n = leading_run_is_taken_off(rest, c);
        assert forall|i: int| 0 <= i < n + 1 implies #[trigger] s[i] == c by {
            if i > 0 {
                assert(rest[i - 1] == s[i]);
            }
        }
        if n + 1 < s.len() {
            assert(rest[n] == s[n + 1]);
        }
        assert(rest.skip(n) =~= s.skip(n + 1));
        n + 1
    } else {
        assert(s.skip(0) =~= s);
        0
    }
}

/// Taking a run off the end of a text leaves what stands before it.
pub proof fn trailing_run_is_taken_off(s: Seq<char>, c: char) -> (n: int)
    ensures
        0 <= n <= s.len(),
        forall|i: int| n <= i < s.len() ==> #[trigger] s[i] == c,
        n > 0 ==> s[n - 1] != c,
        without_trailing(s, c) == s.take(n),
    decreases s.len(),
{
    if s.len() > 0 && s.last() == c {
        let rest = s.drop_last();
        let n = trailing_run_is_taken_off(rest, c);
        assert forall|i: int| n <= i < s.len() implies #[trigger] s[i] == c by {
            if i < rest.len() {
                assert(rest[i] == s[i]);
            }
        }
        if n > 0 {
            assert(rest[n - 1] == s[n - 1]);
        }
        assert(rest.take(n) =~= s.take(n));
        n
    } else {
        assert(s.take(s.len() as int) =~= s);
        s.len() as int
    }
}

/// Where a part does not stand in a text, replacing it changes nothing. Where the text is a
/// stretch that the part does not begin in, then the part, then more, the part gives way, and the
/// rest follows with its own parts replaced.
pub proof fn each_part_gives_way(
    a: Seq<char>,
    part: Seq<char>,
    rest: Seq<char>,
    new: Seq<char>,
)
    requires
        part.len() > 0,
        forall|i: int|
            0 <= i < a.len() ==> !#[trigger] part.is_prefix_of((a + part + rest).skip(i)),
    ensures
        replace_all(a + part + rest, part, new) == a + new + replace_all(rest, part, new),
    decreases a.len(),
{
    let s = a + part + rest;
    if a.len() == 0 {
        assert(s.subrange(0, part.len() as int) =~= part);
        assert(part.is_prefix_of(s));
        assert(s.skip(part.len() as int) =~= rest);
        assert(a + new + replace_all(rest, part, new) =~= new + replace_all(rest, part, new));
    } else {
        let b = a.skip(1);
        assert(s.skip(1) =~= b + part + rest);
        assert(s.skip(0) =~= s);
        assert(!part.is_prefix_of(s.skip(0)));
        assert forall|i: int| 0 <= i < b.len() implies !#[trigger] part.is_prefix_of(
            (b + part + rest).skip(i),
        ) by {
            assert((b + part + rest).skip(i) =~= s.skip(i + 1));
            assert(!part.is_prefix_of(s.skip(i + 1)));
        }
        each_part_gives_way(b, part, rest, new);
        assert(s[0] == a[0]);
        assert(seq![a[0]] + (b + new + replace_all(rest, part, new)) =~= a + new + replace_all(
            rest,
            part,
            new,
        ));
    }
}

/// A text in which a part does not stand is left as it is.
pub proof fn absent_part_changes_nothing(s: Seq<char>, part: Seq<char>, new: Seq<char>)
    requires
        part.len() > 0,
        !has_part(s, part),
    ensures
        replace_all(s, part, new) == s,
    decreases s.len(),
{
    if s.len() > 0 {
        assert(s.skip(0) =~= s);
        assert(!part.is_prefix_of(s.skip(0)));
        let rest = s.skip(1);
        if has_part(rest, part) {
            let i = choose|i: int| 0 <= i <= rest.len() && #[trigger] part.is_prefix_of(rest.skip(i));
            assert(rest.skip(i) =~= s.skip(i + 1));
        }
        absent_part_changes_nothing(rest, part, new);
        assert(seq![s[0]] + rest =~= s);
    }
}

/// A text is blank exactly where all of it is white space, as Unicode has it. Letters, digits and
/// every other printing character of ASCII are not.
pub proof fn only_white_space_is_blank(s: Seq<char>, c: char)
    ensures
        blank(s) <==> forall|i: int| 0 <= i < s.len() ==> white_space(#[trigger] s[i]),
        blank(Seq::empty()),
        '!' <= c && c <= '~' ==> !white_space(c),
        white_space(c) <==> {
            ||| c == '\t'
            ||| c == '\n'
            ||| c == '\u{b}'
            ||| c == '\u{c}'
            ||| c == '\r'
            ||| c == ' '
            ||| c == '\u{85}'
            ||| c == '\u{a0}'
            ||| c == '\u{1680}'
            ||| '\u{2000}' <= c && c <= '\u{200a}'
            ||| c == '\u{2028}'
            ||| c == '\u{2029}'
            ||| c == '\u{202f}'
            ||| c == '\u{205f}'
            ||| c == '\u{3000}'
        },
{
}

/// A document stands for its tree, value by value: nothing is lost and nothing is changed.
pub proof fn document_stands_for_its_tree(items: Vec<Json>, m: TextMap<Json>, s: String, b: bool)
    ensures
        Json::Null@ == JsonView::Null,
        Json::Bool(b)@ == JsonView::Bool(b),
        Json::String(s)@ == JsonView::String(s@),
        Json::Array(items)@ is Array,
        Json::Array(items)@->Array_0.len() == items@.len(),
        forall|i: int|
            0 <= i < items@.len() ==> #[trigger] Json::Array(items)@->Array_0[i] == items@[i]@,
        Json::Object(m)@ is Object,
        Json::Object(m)@->Object_0.len() == m.entries().len(),
        forall|i: int|
            0 <= i < m.entries().len() ==> #[trigger] Json::Object(m)@->Object_0[i] == (
                m.entries()[i].0,
                m.entries()[i].1@,
            ),
{
    tree_of_array(items);
    tree_of_object(m);
}

/// The contents of lists and maps of texts are those of their entries, each in its place.
pub proof fn contents_are_those_of_the_entries(
    list: Seq<String>,
    pairs: Seq<(String, String)>,
    m: TextMap<String>,
    v: Option<String>,
)
    ensures
        texts(list).len() == list.len(),
        forall|i: int| 0 <= i < list.len() ==> #[trigger] texts(list)[i] == list[i]@,
        pair_texts(pairs).len() == pairs.len(),
        forall|i: int|
            0 <= i < pairs.len() ==> #[trigger] pair_texts(pairs)[i] == (pairs[i].0@, pairs[i].1@),
        text_entries(m).len() == m.entries().len(),
        forall|i: int|
            0 <= i < m.entries().len() ==> #[trigger] text_entries(m)[i] == (
                m.entries()[i].0,
                m.entries()[i].1@,
            ),
        match v {
            Some(s) => text_of(v) == Some(s@),
            None => text_of(v) is None,
        },
{
}

}
