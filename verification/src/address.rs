//! The URL of a request: the base URL of a source with the path and query of an operation.
use crate::request::hex_digit;
use crate::text::{join3, pair_texts, trim_trailing, without_trailing};
use vstd::prelude::*;
use vstd::utf8::encode_utf8;

verus! {

/// `url::Url`, a parsed URL.
#[verifier::external_type_specification]
#[verifier::external_body]
pub struct ExUrl(url::Url);

/// A URL in four parts: all that stands before its path, the path, the query with its `?`, and
/// the fragment with its `#`. A query or fragment that is missing is empty.
pub struct UrlView {
    pub origin: Seq<char>,
    pub path: Seq<char>,
    pub query: Seq<char>,
    pub fragment: Seq<char>,
}

impl UrlView {
    /// The URL as text.
    pub open spec fn text(self) -> Seq<char> {
        self.origin + self.path + self.query + self.fragment
    }
}

/// The parts of a `url::Url`.
pub uninterp spec fn url_parts(u: url::Url) -> UrlView;

/// What `url::Url::parse` reads from a text, or how it words its error.
pub uninterp spec fn url_read(text: Seq<char>) -> Result<UrlView, Seq<char>>;

/// The path that `url::Url::set_path` puts behind `origin` in place of `old_path`: `path`
/// normalised and percent-encoded.
pub uninterp spec fn path_written(origin: Seq<char>, old_path: Seq<char>, path: Seq<char>) -> Seq<
    char,
>;

/// What stands in a form for the byte `b`: letters, digits and `*-._` as they are, a space as
/// `+`, everything else escaped.
pub open spec fn form_byte(b: u8) -> Seq<char> {
    if b == 42 || b == 45 || b == 46 || 48 <= b <= 57 || 65 <= b <= 90 || b == 95 || 97 <= b
        <= 122 {
        seq![b as char]
    } else if b == 32 {
        seq!['+']
    } else {
        seq!['%', hex_digit(b / 16), hex_digit(b % 16)]
    }
}

/// The bytes as the name or value of a form pair.
pub open spec fn form_encoded(bytes: Seq<u8>) -> Seq<char>
    decreases bytes.len(),
{
    if bytes.len() == 0 {
        Seq::empty()
    } else {
        form_encoded(bytes.drop_last()) + form_byte(bytes.last())
    }
}

/// A query with one more pair behind it. A query that was missing gets its `?`, and one that was
/// not empty a `&`.
pub open spec fn query_extended(query: Seq<char>, name: Seq<char>, value: Seq<char>) -> Seq<char> {
    query + (if query.len() == 0 {
        seq!['?']
    } else if query.len() == 1 {
        Seq::empty()
    } else {
        seq!['&']
    }) + form_encoded(encode_utf8(name)) + seq!['='] + form_encoded(encode_utf8(value))
}

/// How bytes are written into a URL.
#[derive(Debug, Clone, Copy, PartialEq, Eq, Structural)]
pub enum Coding {
    /// As a path.
    Path,
    /// As the name or value of a query pair.
    Form,
}

impl Coding {
    /// How many characters the byte `b` takes. A path leaves tabs and line breaks out, and a
    /// form writes a space as `+`.
    pub open spec fn width(self, b: u8) -> nat {
        match self {
            Coding::Path => if b == 9 || b == 10 || b == 13 {
                0
            } else if b <= 32 || b == 34 || b == 35 || b == 60 || b == 62 || b == 63 || b == 96 || b
                == 123 || b == 125 || b >= 127 {
                3
            } else {
                1
            },
            Coding::Form => if b == 32 || b == 42 || b == 45 || b == 46 || 48 <= b <= 57 || 65 <= b
                <= 90 || b == 95 || 97 <= b <= 122 {
                1
            } else {
                3
            },
        }
    }

    /// How many characters the bytes take.
    pub open spec fn size(self, bytes: Seq<u8>) -> nat
        decreases bytes.len(),
    {
        if bytes.len() == 0 {
            0
        } else {
            self.size(bytes.drop_last()) + self.width(bytes.last())
        }
    }
}

/// How many characters a pair adds to a query of length `query_len`: name and value with a `=`
/// between them, behind a `?` where there was no query and a `&` where it was not empty.
pub open spec fn pair_size(query_len: nat, name: Seq<char>, value: Seq<char>) -> nat {
    (if query_len == 1 {
        0nat
    } else {
        1nat
    }) + Coding::Form.size(encode_utf8(name)) + 1 + Coding::Form.size(encode_utf8(value))
}

/// `url::Url::parse`: the URL that the text holds, or the wording of the error.
#[verifier::external_body]
fn parse_url(text: &str) -> (r: Result<url::Url, String>)
    ensures
        url_read(text@) == (match r {
            Ok(u) => Ok::<UrlView, Seq<char>>(url_parts(u)),
            Err(e) => Err(e@),
        }),
{
    url::Url::parse(text).map_err(|e| e.to_string())
}

/// `url::Url::path`: the path.
#[verifier::external_body]
fn path_of(u: &url::Url) -> (r: String)
    ensures
        r@ == url_parts(*u).path,
{
    u.path().to_owned()
}

/// Origin, path, query and fragment of a URL.
struct UrlTexts {
    origin: String,
    path: String,
    query: String,
    fragment: String,
}

/// Slices of `url::Url` between positions: its four parts. `AfterPath` and `AfterQuery` stand
/// before the `?` and the `#`.
#[verifier::external_body]
fn open_url(u: &url::Url) -> (r: UrlTexts)
    ensures
        r.origin@ == url_parts(*u).origin,
        r.path@ == url_parts(*u).path,
        r.query@ == url_parts(*u).query,
        r.fragment@ == url_parts(*u).fragment,
{
    UrlTexts {
        origin: u[..url::Position::BeforePath].to_owned(),
        path: u[url::Position::BeforePath..url::Position::AfterPath].to_owned(),
        query: u[url::Position::AfterPath..url::Position::AfterQuery].to_owned(),
        fragment: u[url::Position::AfterQuery..].to_owned(),
    }
}

/// `url::Url::set_path`: the path alone is replaced. The new one takes at most the characters
/// that its bytes take in a path, and two more. `set_path` keeps positions in 32 bits, and panics
/// where the end of the old path, the end of the new path or the start of a fragment is beyond
/// that.
#[verifier::external_body]
fn set_path(u: &mut url::Url, path: &str)
    requires
        ({
            let old_url = url_parts(*old(u));
            let written = path_written(old_url.origin, old_url.path, path@).len();
            let size = Coding::Path.size(encode_utf8(path@)) + 2;
            let behind = if old_url.fragment.len() > 0 {
                old_url.query.len()
            } else {
                0
            };
            &&& old_url.origin.len() + old_url.path.len() <= u32::MAX
            &&& old_url.origin.len() + written + behind <= u32::MAX || old_url.origin.len() + size
                + behind <= u32::MAX
        }),
    ensures
        url_parts(*final(u)).origin == url_parts(*old(u)).origin,
        url_parts(*final(u)).query == url_parts(*old(u)).query,
        url_parts(*final(u)).fragment == url_parts(*old(u)).fragment,
        url_parts(*final(u)).path == path_written(
            url_parts(*old(u)).origin,
            url_parts(*old(u)).path,
            path@,
        ),
        url_parts(*final(u)).path.len() <= Coding::Path.size(encode_utf8(path@)) + 2,
{
    u.set_path(path)
}

/// `url::form_urlencoded::Serializer::append_pair` on the query of a URL: the pair is added
/// behind the query that there is, form-encoded. `query_pairs_mut` keeps positions in 32 bits,
/// and panics where the start of a new query or of a fragment is beyond that.
#[verifier::external_body]
fn append_pair(u: &mut url::Url, name: &str, value: &str)
    requires
        url_parts(*old(u)).query.len() == 0 ==> url_parts(*old(u)).origin.len() + url_parts(
            *old(u),
        ).path.len() <= u32::MAX,
        url_parts(*old(u)).fragment.len() > 0 ==> url_parts(*old(u)).origin.len() + url_parts(
            *old(u),
        ).path.len() + url_parts(*old(u)).query.len() + pair_size(
            url_parts(*old(u)).query.len(),
            name@,
            value@,
        ) <= u32::MAX,
    ensures
        url_parts(*final(u)).origin == url_parts(*old(u)).origin,
        url_parts(*final(u)).path == url_parts(*old(u)).path,
        url_parts(*final(u)).fragment == url_parts(*old(u)).fragment,
        url_parts(*final(u)).query == query_extended(url_parts(*old(u)).query, name@, value@),
{
    u.query_pairs_mut().append_pair(name, value);
}

/// `url::Url::to_string`: the four parts, one after the other.
#[verifier::external_body]
fn url_to_string(u: &url::Url) -> (r: String)
    ensures
        r@ == url_parts(*u).text(),
{
    u.to_string()
}

/// A query with the first `n` of `pairs` behind it.
pub open spec fn query_with(query: Seq<char>, pairs: Seq<(Seq<char>, Seq<char>)>, n: int) -> Seq<
    char,
>
    decreases n,
{
    if n <= 0 {
        query
    } else {
        query_extended(query_with(query, pairs, n - 1), pairs[n - 1].0, pairs[n - 1].1)
    }
}

/// The length of a query, `start` long before, with the first `n` of `pairs` behind it.
pub open spec fn query_size(start: nat, pairs: Seq<(Seq<char>, Seq<char>)>, n: int) -> nat
    decreases n,
{
    if n <= 0 {
        start
    } else {
        let done = query_size(start, pairs, n - 1);
        done + pair_size(done, pairs[n - 1].0, pairs[n - 1].1)
    }
}

/// The path of an operation behind the path of its base URL.
pub open spec fn path_below(base_path: Seq<char>, relative_path: Seq<char>) -> Seq<char> {
    without_trailing(base_path, '/') + relative_path
}

impl UrlView {
    /// The path that `relative_path` gets below this URL.
    pub open spec fn path_for(self, relative_path: Seq<char>) -> Seq<char> {
        path_written(self.origin, self.path, path_below(self.path, relative_path))
    }

    /// Whether the fragment of a URL, where it has one, begins within 32 bits once the path is
    /// `path_len` long and the query `query_len`.
    pub open spec fn fragment_within(self, path_len: nat, query_len: nat) -> bool {
        self.fragment.len() > 0 ==> self.origin.len() + path_len + query_len <= u32::MAX
    }

    /// Whether the path of this URL and a new one of length `path_len` end within 32 bits, and
    /// the fragment begins there.
    pub open spec fn path_within(self, path_len: nat) -> bool {
        &&& self.origin.len() + self.path.len() <= u32::MAX
        &&& self.origin.len() + path_len <= u32::MAX
        &&& self.fragment_within(path_len, self.query.len())
    }
}

/// The URL of a request, or why the base URL cannot be used.
pub open spec fn request_url(
    base_url: Seq<char>,
    relative_path: Seq<char>,
    query: Seq<(Seq<char>, Seq<char>)>,
) -> Result<Seq<char>, Seq<char>> {
    match url_read(base_url) {
        Ok(base) => Ok(
            base.origin + base.path_for(relative_path) + query_with(
                base.query,
                query,
                query.len() as int,
            ) + base.fragment,
        ),
        Err(e) => Err("invalid base_url '"@ + base_url + "': "@ + e),
    }
}

/// Whether `url::Url` can hold the URL of a request: the path ends within 32 bits, and so does
/// the query where a fragment follows.
pub open spec fn url_fits(
    base_url: Seq<char>,
    relative_path: Seq<char>,
    query: Seq<(Seq<char>, Seq<char>)>,
) -> bool {
    match url_read(base_url) {
        Ok(base) => {
            let path_len = base.path_for(relative_path).len();
            &&& base.path_within(path_len)
            &&& base.fragment_within(
                path_len,
                query_size(base.query.len(), query, query.len() as int),
            )
        },
        Err(_) => true,
    }
}

/// Whether the URL of a request fits, and this can be told before its path is written: the path
/// fits even if no segment `.` or `..` is taken out of it.
pub open spec fn url_surely_fits(
    base_url: Seq<char>,
    relative_path: Seq<char>,
    query: Seq<(Seq<char>, Seq<char>)>,
) -> bool {
    match url_read(base_url) {
        Ok(base) => {
            let path = path_below(base.path, relative_path);
            &&& base.path_within(Coding::Path.size(encode_utf8(path)) + 2)
            &&& base.fragment_within(
                base.path_for(relative_path).len(),
                query_size(base.query.len(), query, query.len() as int),
            )
        },
        Err(_) => true,
    }
}

/// Puts the path of an operation behind the path of its base URL.
pub fn join_path(base_path: &str, relative_path: &str) -> (r: String)
    ensures
        r@ == path_below(base_path@, relative_path@),
{
    let mut out = trim_trailing(base_path, '/');
    out.append(relative_path);
    out
}

/// A form takes as many characters as its bytes do.
proof fn form_has_its_size(bytes: Seq<u8>)
    ensures
        form_encoded(bytes).len() == Coding::Form.size(bytes),
    decreases bytes.len(),
{
    if bytes.len() > 0 {
        form_has_its_size(bytes.drop_last());
    }
}

/// A pair makes a query longer by its size.
pub proof fn pair_has_its_size(query: Seq<char>, name: Seq<char>, value: Seq<char>)
    ensures
        query_extended(query, name, value).len() == query.len() + pair_size(
            query.len(),
            name,
            value,
        ),
{
    form_has_its_size(encode_utf8(name));
    form_has_its_size(encode_utf8(value));
}

/// More pairs never make a shorter query.
proof fn query_size_grows(start: nat, pairs: Seq<(Seq<char>, Seq<char>)>, m: int, n: int)
    requires
        m <= n,
    ensures
        query_size(start, pairs, m) <= query_size(start, pairs, n),
    decreases n - m,
{
    if m < n {
        query_size_grows(start, pairs, m, n - 1);
    }
}

/// More bytes never take fewer characters.
proof fn size_grows(coding: Coding, bytes: Seq<u8>, n: int)
    requires
        0 <= n <= bytes.len(),
    ensures
        coding.size(bytes.take(n)) <= coding.size(bytes),
    decreases bytes.len() - n,
{
    if n < bytes.len() {
        size_grows(coding, bytes, n + 1);
        assert(bytes.take(n + 1).drop_last() =~= bytes.take(n));
    } else {
        assert(bytes.take(n) =~= bytes);
    }
}

/// The URL of a request: the base URL with the path and the query of an operation.
pub fn full_url(base_url: &str, relative_path: &str, query: &Vec<(String, String)>) -> (r: Result<
    String,
    String,
>)
    requires
        url_fits(base_url@, relative_path@, pair_texts(query@)),
    ensures
        request_url(base_url@, relative_path@, pair_texts(query@)) == (match r {
            Ok(u) => Ok::<Seq<char>, Seq<char>>(u@),
            Err(e) => Err(e@),
        }),
{
    let mut url = match parse_url(base_url) {
        Ok(u) => u,
        Err(e) => {
            let mut message = join3("invalid base_url '", base_url, "': ");
            message.append(e.as_str());
            return Err(message);
        },
    };
    let ghost base = url_parts(url);
    let ghost pairs = pair_texts(query@);
    let path = join_path(path_of(&url).as_str(), relative_path);
    set_path(&mut url, path.as_str());
    let ghost written = url_parts(url).path;
    for i in 0..query.len()
        invariant
            pairs == pair_texts(query@),
            url_parts(url).origin == base.origin,
            url_parts(url).path == written,
            url_parts(url).fragment == base.fragment,
            url_parts(url).query == query_with(base.query, pairs, i as int),
            url_parts(url).query.len() == query_size(base.query.len(), pairs, i as int),
            base.origin.len() + written.len() <= u32::MAX,
            base.fragment_within(
                written.len(),
                query_size(base.query.len(), pairs, pairs.len() as int),
            ),
    {
        assert(pairs[i as int] == (query@[i as int].0@, query@[i as int].1@));
        proof {
            query_size_grows(base.query.len(), pairs, i + 1, pairs.len() as int);
            pair_has_its_size(url_parts(url).query, pairs[i as int].0, pairs[i as int].1);
        }
        append_pair(&mut url, query[i].0.as_str(), query[i].1.as_str());
    }
    Ok(url_to_string(&url))
}

impl Coding {
    /// How many characters the byte `b` takes.
    fn width_of(self, b: u8) -> (r: u64)
        ensures
            r == self.width(b),
    {
        match self {
            Coding::Path => if b == 9 || b == 10 || b == 13 {
                0
            } else if b <= 32 || b == 34 || b == 35 || b == 60 || b == 62 || b == 63 || b == 96 || b
                == 123 || b == 125 || b >= 127 {
                3
            } else {
                1
            },
            Coding::Form => if b == 32 || b == 42 || b == 45 || b == 46 || (48 <= b && b <= 57) || (
            65 <= b && b <= 90) || b == 95 || (97 <= b && b <= 122) {
                1
            } else {
                3
            },
        }
    }

    /// What is left of `room` once the text is written, or `None` where it is too small.
    fn take_room(self, room: u64, text: &str) -> (r: Option<u64>)
        ensures
            match r {
                Some(left) => left == room - self.size(encode_utf8(text@)),
                None => self.size(encode_utf8(text@)) > room,
            },
    {
        let bytes = text.as_bytes();
        let mut left: u64 = room;
        assert(bytes@.take(0) =~= Seq::empty());
        for i in 0..bytes.len()
            invariant
                bytes@ == encode_utf8(text@),
                left == room - self.size(bytes@.take(i as int)),
        {
            let w: u64 = self.width_of(bytes[i]);
            assert(bytes@.take(i + 1).drop_last() =~= bytes@.take(i as int));
            if w > left {
                proof {
                    size_grows(self, bytes@, i + 1);
                }
                return None;
            }
            left = left - w;
        }
        assert(bytes@.take(bytes@.len() as int) =~= bytes@);
        Some(left)
    }
}

/// What is left of `room` behind a text, or `None` where it is too small.
fn room_behind(room: u64, text: &String) -> (r: Option<u64>)
    ensures
        match r {
            Some(left) => left == room - text@.len(),
            None => text@.len() > room,
        },
{
    let n: u64 = text.as_str().unicode_len() as u64;
    if n > room {
        None
    } else {
        Some(room - n)
    }
}

/// Whether the first query, `start` long, has room for the pairs.
fn pairs_have_room(room: u64, start: u64, query: &Vec<(String, String)>) -> (r: bool)
    requires
        start <= room <= u32::MAX,
    ensures
        r == (query_size(start as nat, pair_texts(query@), query@.len() as int) <= room),
{
    let ghost pairs = pair_texts(query@);
    let mut size: u64 = start;
    for i in 0..query.len()
        invariant
            pairs == pair_texts(query@),
            size == query_size(start as nat, pairs, i as int),
            size <= room <= u32::MAX,
    {
        assert(pairs[i as int] == (query@[i as int].0@, query@[i as int].1@));
        proof {
            query_size_grows(start as nat, pairs, i + 1, pairs.len() as int);
        }
        let marks: u64 = if size == 1 {
            1
        } else {
            2
        };
        if marks > room - size {
            return false;
        }
        let left = match Coding::Form.take_room(room - size - marks, query[i].0.as_str()) {
            Some(left) => left,
            None => {
                return false;
            },
        };
        size = match Coding::Form.take_room(left, query[i].1.as_str()) {
            Some(left) => room - left,
            None => {
                return false;
            },
        };
    }
    true
}

/// Whether the URL of a request is sure to fit.
pub fn is_sure_to_fit(base_url: &str, relative_path: &str, query: &Vec<(String, String)>) -> (r:
    bool)
    ensures
        r == url_surely_fits(base_url@, relative_path@, pair_texts(query@)),
        r ==> url_fits(base_url@, relative_path@, pair_texts(query@)),
{
    let mut url = match parse_url(base_url) {
        Ok(u) => u,
        Err(_) => {
            return true;
        },
    };
    let ghost base = url_parts(url);
    let parts = open_url(&url);
    let has_fragment = !parts.fragment.as_str().is_empty();
    let Some(room) = room_behind(4_294_967_295, &parts.origin) else {
        return false;
    };
    if room_behind(room, &parts.path).is_none() {
        return false;
    }
    let path = join_path(parts.path.as_str(), relative_path);
    let Some(left) = Coding::Path.take_room(room, path.as_str()) else {
        return false;
    };
    if left < 2 {
        return false;
    }
    if has_fragment && room_behind(left - 2, &parts.query).is_none() {
        return false;
    }
    set_path(&mut url, path.as_str());
    if !has_fragment {
        return true;
    }
    let now = open_url(&url);
    let Some(behind) = room_behind(room, &now.path) else {
        return false;
    };
    let Some(rest) = room_behind(behind, &parts.query) else {
        return false;
    };
    pairs_have_room(behind, behind - rest, query)
}

/// The URL of a request where it is sure to fit. `None` says that this cannot be told
/// beforehand.
pub fn full_url_within_limits(
    base_url: &str,
    relative_path: &str,
    query: &Vec<(String, String)>,
) -> (r: Option<Result<String, String>>)
    ensures
        r is Some <==> url_surely_fits(base_url@, relative_path@, pair_texts(query@)),
        r is Some ==> request_url(base_url@, relative_path@, pair_texts(query@)) == (match r->Some_0 {
            Ok(u) => Ok::<Seq<char>, Seq<char>>(u@),
            Err(e) => Err(e@),
        }),
{
    if is_sure_to_fit(base_url, relative_path, query) {
        Some(full_url(base_url, relative_path, query))
    } else {
        None
    }
}

}
