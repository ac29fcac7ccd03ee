//! The request model: the request line, its path segments and its query
//! parameters.

use crate::http::response::HttpVersion;
use crate::http::strmap::{put, Entry, StrMap};
use crate::lossy::{lossy_text, to_str_lossy};
use crate::text::{
    ascii_text, blank, is_ascii_bytes, is_blank, lemma_ascii_bytes, pieces, same, split,
    split_whitespace, views, words, Delim,
};
use vstd::prelude::*;
use vstd::std_specs::cmp::PartialEqSpecImpl;
use vstd::std_specs::convert::FromSpecImpl;
use vstd::string::*;
use vstd::utf8::*;

verus! {

/// The method of a request.
#[derive(Debug, Clone, Copy, PartialEq, Eq, Structural)]
pub enum HttpMethod {
    Get,
    Post,
    Invalid,
}

impl HttpMethod {
    /// How the method is written.
    pub open spec fn text(self) -> Seq<char> {
        match self {
            HttpMethod::Get => "GET"@,
            HttpMethod::Post => "POST"@,
            HttpMethod::Invalid => "INVALID"@,
        }
    }

    /// The method that `s` names: `GET` and `POST` as they stand, and
    /// nothing else.
    pub open spec fn of(s: Seq<char>) -> HttpMethod {
        if s == "GET"@ {
            HttpMethod::Get
        } else if s == "POST"@ {
            HttpMethod::Post
        } else {
            HttpMethod::Invalid
        }
    }

    /// The method as it is written.
    pub fn as_str(&self) -> (r: &'static str)
        ensures
            r@ == self.text(),
    {
        match self {
            HttpMethod::Get => "GET",
            HttpMethod::Post => "POST",
            HttpMethod::Invalid => "INVALID",
        }
    }

    /// The method as it is written.
    pub fn to_string(&self) -> (r: String)
        ensures
            r@ == self.text(),
    {
        self.as_str().to_owned()
    }
}

impl From<&str> for HttpMethod {
    fn from(value: &str) -> (r: Self) {
        if same(value, "GET") {
            HttpMethod::Get
        } else if same(value, "POST") {
            HttpMethod::Post
        } else {
            HttpMethod::Invalid
        }
    }
}

impl FromSpecImpl<&str> for HttpMethod {
    open spec fn obeys_from_spec() -> bool {
        true
    }

    open spec fn from_spec(value: &str) -> Self {
        HttpMethod::of(value@)
    }
}

/// The `i`-th of `items`, or the empty text where there are not that many.
pub open spec fn item_or_empty(items: Seq<Seq<char>>, i: int) -> Seq<char> {
    if 0 <= i < items.len() {
        items[i]
    } else {
        Seq::empty()
    }
}

/// The segments of a path: its pieces between slashes; none at all for a
/// path that is empty or holds only white space.
pub open spec fn segments(path: Seq<char>) -> Seq<Seq<char>> {
    if is_blank(path) {
        Seq::empty()
    } else {
        pieces(path, Delim::Char('/'))
    }
}

/// The query groups of the segments, in order: of each segment, what
/// follows its first `?`, cut at every further `?`.
pub open spec fn query_groups(segs: Seq<Seq<char>>) -> Seq<Seq<char>>
    decreases segs.len(),
{
    if segs.len() == 0 {
        Seq::empty()
    } else {
        query_groups(segs.drop_last()) + pieces(segs.last(), Delim::Char('?')).skip(1)
    }
}

/// The key and the value of a query group: what stands before its first
/// `=`, and what stands between that and the next; an empty value where it
/// has no `=`.
pub open spec fn key_value(group: Seq<char>) -> Entry {
    let kv = pieces(group, Delim::Char('='));
    (item_or_empty(kv, 0), item_or_empty(kv, 1))
}

/// The entries after each of the groups, in order, has put its value.
pub open spec fn put_all(e: Seq<Entry>, groups: Seq<Seq<char>>) -> Seq<Entry>
    decreases groups.len(),
{
    if groups.len() == 0 {
        e
    } else {
        let kv = key_value(groups.last());
        put(put_all(e, groups.drop_last()), kv.0, kv.1)
    }
}

/// The query parameters of a path.
pub open spec fn queries(path: Seq<char>) -> Seq<Entry> {
    put_all(Seq::empty(), query_groups(segments(path)))
}

fn item_at<'a>(items: &Vec<&'a str>, i: usize) -> (r: &'a str)
    ensures
        r@ == item_or_empty(views(items@), i as int),
{
    if i < items.len() {
        items[i]
    } else {
        let r = "";
        proof {
            reveal_strlit("");
        }
        assert(r@ =~= Seq::<char>::empty());
        r
    }
}

/// What a request line says.
#[derive(Debug, Clone)]
pub struct Request {
    pub method: HttpMethod,
    pub path: String,
    pub version: HttpVersion,
}

impl PartialEq for Request {
    fn eq(&self, other: &Self) -> (r: bool) {
        self.method == other.method && self.path == other.path && self.version == other.version
    }
}

impl PartialEqSpecImpl for Request {
    open spec fn obeys_eq_spec() -> bool {
        true
    }

    open spec fn eq_spec(&self, other: &Self) -> bool {
        self.method == other.method && self.path@ == other.path@ && self.version == other.version
    }
}

impl Eq for Request {

}

impl Request {
    /// `self` is what the request line `text` says: its first three words
    /// are the method, the path and the version, and a word that is
    /// missing counts as empty.
    pub open spec fn parsed_from(&self, text: Seq<char>) -> bool {
        let w = words(text);
        &&& self.method == HttpMethod::of(item_or_empty(w, 0))
        &&& self.path@ == item_or_empty(w, 1)
        &&& self.version == HttpVersion::of(item_or_empty(w, 2))
    }

    /// A `GET` of the empty path, in HTTP/1.1.
    pub fn new() -> (r: Self)
        ensures
            r.method == HttpMethod::Get,
            r.path@ == Seq::<char>::empty(),
            r.version == HttpVersion::V1_1,
    {
        Request { method: HttpMethod::Get, path: String::new(), version: HttpVersion::V1_1 }
    }

    /// Reads a request line. Nothing is refused: a method or a version
    /// that is not known, or is missing, is `Invalid`.
    pub fn parse(text: &str) -> (r: Self)
        ensures
            r.parsed_from(text@),
    {
        let w = split_whitespace(text);
        Request {
            method: HttpMethod::from(item_at(&w, 0)),
            path: item_at(&w, 1).to_owned(),
            version: HttpVersion::from(item_at(&w, 2)),
        }
    }

    /// The segments of the path.
    pub fn parse_params(&self) -> (out: Vec<&str>)
        ensures
            views(out@) == segments(self.path@),
    {
        let path = self.path.as_str();
        if blank(path) {
            let out: Vec<&str> = Vec::new();
            assert(views(out@) =~= Seq::<Seq<char>>::empty());
            out
        } else {
            split(path, Delim::Char('/'))
        }
    }

    /// The query parameters of the path. Where a key comes twice, its later
    /// value counts.
    pub fn parse_queries(&self) -> (out: StrMap)
        ensures
            out@ == queries(self.path@),
    {
        let segs = self.parse_params();
        let mut groups: Vec<&str> = Vec::new();
        let mut i: usize = 0;
        assert(views(groups@) =~= query_groups(views(segs@).take(0)));
        while i < segs.len()
            invariant
                i <= segs.len(),
                views(groups@) == query_groups(views(segs@).take(i as int)),
            decreases segs.len() - i,
        {
            let parts = split(segs[i], Delim::Char('?'));
            let ghost before = views(groups@);
            let mut k: usize = 1;
            assert(views(parts@).subrange(1, 1) =~= Seq::<Seq<char>>::empty());
            while k < parts.len()
                invariant
                    1 <= k <= parts.len(),
                    views(groups@) == before + views(parts@).subrange(1, k as int),
                decreases parts.len() - k,
            {
                let ghost so_far = views(groups@);
                groups.push(parts[k]);
                assert(views(groups@) == so_far.push(parts[k as int]@));
                assert(views(parts@).subrange(1, k + 1) == views(parts@).subrange(1, k as int).push(
                    parts[k as int]@,
                ));
                k += 1;
            }
            proof {
                let all = views(segs@);
                assert(all.take(i + 1).drop_last() == all.take(i as int));
                assert(all.take(i + 1).last() == segs[i as int]@);
                assert(views(parts@).subrange(1, k as int) == views(parts@).skip(1));
            }
            i += 1;
        }
        assert(views(segs@).take(i as int) == views(segs@));
        let mut out = StrMap::new();
        let mut j: usize = 0;
        assert(views(groups@).take(0) =~= Seq::<Seq<char>>::empty());
        while j < groups.len()
            invariant
                j <= groups.len(),
                out@ == put_all(Seq::empty(), views(groups@).take(j as int)),
            decreases groups.len() - j,
        {
            let kv = split(groups[j], Delim::Char('='));
            let key = item_at(&kv, 0).to_owned();
            let value = item_at(&kv, 1).to_owned();
            proof {
                let all = views(groups@);
                assert(all.take(j + 1).drop_last() == all.take(j as int));
                assert(all.take(j + 1).last() == groups[j as int]@);
            }
            out.insert(key, value);
            j += 1;
        }
        assert(views(groups@).take(j as int) == views(groups@));
        out
    }
}

impl<'a> From<&'a [u8]> for Request {
    /// Reads the request line from raw bytes, decoded as text in the lossy
    /// way.
    fn from(req: &'a [u8]) -> (r: Self)
        ensures
            r.parsed_from(lossy_text(req@)),
            valid_utf8(req@) ==> r.parsed_from(decode_utf8(req@)),
            is_ascii_bytes(req@) ==> r.parsed_from(ascii_text(req@)),
    {
        proof {
            if is_ascii_bytes(req@) {
                lemma_ascii_bytes(req@);
            }
        }
        let text = to_str_lossy(req);
        Request::parse(text.as_str())
    }
}

/// What `from` gives is stated by `from` itself, over the text that the
/// bytes are decoded to.
impl<'a> FromSpecImpl<&'a [u8]> for Request {
    open spec fn obeys_from_spec() -> bool {
        false
    }

    open spec fn from_spec(req: &'a [u8]) -> Self {
        arbitrary()
    }
}

} // verus!
