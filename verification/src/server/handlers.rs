//! The handlers: what each of them answers.

use crate::http::request::{item_or_empty, queries, Request};
use crate::http::response::{wire, ContentType, HttpStatus, HttpVersion, Response};
use crate::http::strmap::{as_map, index_of, Entry, StrMap};
use crate::lossy::{lossy_text, to_str_lossy};
use crate::text::{
    contains, decimal, has, join, lemma_join_pieces_from, lemma_next_hit_bounds,
    lemma_pieces_from_len, next_hit, pieces, pieces_from, split, split_whitespace, to_decimal, views,
    words, Delim,
};
use crate::SharedData;
use vstd::prelude::*;
use vstd::string::*;
use vstd::utf8::*;

verus! {

/// Answers with the index page.
pub struct Index;

/// Answers that nothing was found.
pub struct NotFound;

/// Counts a visit and answers with the count.
pub struct VisitCount;

/// Answers with what the request gave as `content`.
pub struct Echo<'a> {
    pub path_buf: &'a [u8],
}

/// Answers with a file from the directory of static files.
pub struct StaticFile<'a> {
    pub path_buf: &'a [u8],
}

/// The two headers that every answer has, for a body of `len` bytes.
pub open spec fn headers_of(content_type: ContentType, len: nat) -> Seq<Entry> {
    seq![("Content-Type"@, content_type.text()), ("Content-Length"@, decimal(len))]
}

/// An answer in HTTP/1.1 with those two headers.
pub open spec fn answer(status: HttpStatus, content_type: ContentType, body: Seq<u8>) -> Seq<u8> {
    wire(HttpVersion::V1_1, status, headers_of(content_type, body.len()), body)
}

/// The headers of an answer with this body.
pub fn headers(content_type: ContentType, body: &[u8]) -> (h: StrMap)
    ensures
        h@ == headers_of(content_type, body@.len()),
{
    proof {
        reveal_strlit("Content-Type");
        reveal_strlit("Content-Length");
    }
    let mut h = StrMap::new();
    h.insert("Content-Type".to_owned(), content_type.to_string());
    let ghost first = h@;
    h.insert("Content-Length".to_owned(), to_decimal(body.len() as u64));
    proof {
        assert(index_of(Seq::<Entry>::empty(), "Content-Type"@) == 0);
        assert(first =~= seq![("Content-Type"@, content_type.text())]);
        assert("Content-Type"@.len() != "Content-Length"@.len());
        assert(first.skip(1) =~= Seq::<Entry>::empty());
        assert(index_of(first.skip(1), "Content-Length"@) == 0);
        assert(index_of(first, "Content-Length"@) == 1);
        assert(h@ =~= headers_of(content_type, body@.len()));
    }
    h
}

fn respond(status: HttpStatus, content_type: ContentType, body: &[u8]) -> (out: Vec<u8>)
    ensures
        out@ == answer(status, content_type, body@),
{
    let mut r = Response::new();
    r.status = status;
    r.body = body;
    r.headers = headers(content_type, body);
    r.as_bytes()
}

/// What the index page answers.
pub open spec fn index_answer() -> Seq<u8> {
    answer(HttpStatus::Okay, ContentType::Html, encode_utf8("Index Page"@))
}

/// What is answered where nothing is found.
pub open spec fn not_found_answer() -> Seq<u8> {
    answer(HttpStatus::NotFound, ContentType::Html, encode_utf8("404 Not Found"@))
}

/// What the visit counter answers when it stands at `count`.
pub open spec fn count_answer(count: nat) -> Seq<u8> {
    answer(HttpStatus::Okay, ContentType::Html, encode_utf8(decimal(count) + " Times!"@))
}

impl Index {
    /// Answers with the index page, whatever the request.
    pub fn handle(&self) -> (out: Vec<u8>)
        ensures
            out@ == index_answer(),
    {
        respond(HttpStatus::Okay, ContentType::Html, "Index Page".as_bytes())
    }
}

impl NotFound {
    /// Answers that nothing was found, whatever the request.
    pub fn handle(&self) -> (out: Vec<u8>)
        ensures
            out@ == not_found_answer(),
    {
        respond(HttpStatus::NotFound, ContentType::Html, "404 Not Found".as_bytes())
    }
}

impl VisitCount {
    /// Counts the visit and answers with the new count.
    pub fn handle(&self, shared_data: &mut SharedData) -> (out: Vec<u8>)
        requires
            old(shared_data).visit_count < u64::MAX,
        ensures
            *final(shared_data) == old(shared_data).visited(),
            out@ == count_answer(final(shared_data).visit_count as nat),
    {
        let count = shared_data.visit();
        let mut body = to_decimal(count);
        body.append(" Times!");
        respond(HttpStatus::Okay, ContentType::Html, body.as_str().as_bytes())
    }
}

/// The path of the request line `text`: its second word.
pub open spec fn request_path(text: Seq<char>) -> Seq<char> {
    item_or_empty(words(text), 1)
}

/// What is echoed for a path: the value of its query parameter `content`,
/// or a fixed text where it has none.
pub open spec fn echo_body(path: Seq<char>) -> Seq<char> {
    let m = as_map(queries(path));
    if m.contains_key("content"@) {
        m["content"@]
    } else {
        "Need some argument"@
    }
}

/// What the echo handler answers to a request with this path.
pub open spec fn echo_answer(path: Seq<char>) -> Seq<u8> {
    answer(HttpStatus::Okay, ContentType::Html, encode_utf8(echo_body(path)))
}

/// Answers a request with the value of its query parameter `content`.
pub fn echo(req: &Request) -> (out: Vec<u8>)
    ensures
        out@ == echo_answer(req.path@),
{
    let params = req.parse_queries();
    let body = match params.get("content") {
        Some(value) => value,
        None => "Need some argument",
    };
    respond(HttpStatus::Okay, ContentType::Html, body.as_bytes())
}

impl<'a> Echo<'a> {
    /// Reads the request and answers with the value of its query
    /// parameter `content`.
    pub fn handle(&self) -> (out: Vec<u8>)
        ensures
            out@ == echo_answer(request_path(lossy_text(self.path_buf@))),
            valid_utf8(self.path_buf@) ==> out@ == echo_answer(
                request_path(decode_utf8(self.path_buf@)),
            ),
    {
        let req = Request::from(self.path_buf);
        echo(&req)
    }
}

/// The first of the words from index `i` on that holds `needle`.
pub open spec fn first_holding(ws: Seq<Seq<char>>, needle: Seq<char>, i: int) -> Option<Seq<char>>
    decreases ws.len() - i,
{
    if i < 0 || i >= ws.len() {
        None
    } else if contains(ws[i], needle) {
        Some(ws[i])
    } else {
        first_holding(ws, needle, i + 1)
    }
}

/// What a word names below the directory of static files: the word
/// without its first two segments.
pub open spec fn relative_path(word: Seq<char>) -> Seq<char> {
    let segs = pieces(word, Delim::Char('/'));
    if segs.len() > 2 {
        join(segs.skip(2), '/')
    } else {
        Seq::empty()
    }
}

/// What a word names is what follows its second slash; nothing where it
/// has fewer than two.
pub proof fn lemma_relative_path(word: Seq<char>)
    ensures
        ({
            let first = next_hit(word, Delim::Char('/'), 0);
            let second = next_hit(word, Delim::Char('/'), first + 1);
            relative_path(word) == if first < word.len() && second < word.len() {
                word.subrange(second + 1, word.len() as int)
            } else {
                Seq::empty()
            }
        }),
{
    let d = Delim::Char('/');
    let first = next_hit(word, d, 0);
    lemma_next_hit_bounds(word, d, 0);
    if first < word.len() {
        let second = next_hit(word, d, first + 1);
        lemma_next_hit_bounds(word, d, first + 1);
        let after_first = pieces_from(word, d, first + 1);
        assert(pieces(word, d) == seq![word.subrange(0, first)] + after_first);
        if second < word.len() {
            let after_second = pieces_from(word, d, second + 1);
            assert(after_first == seq![word.subrange(first + 1, second)] + after_second);
            lemma_pieces_from_len(word, d, second + 1);
            lemma_join_pieces_from(word, '/', second + 1);
            assert(pieces(word, d).skip(2) =~= after_second);
        } else {
            assert(after_first == seq![word.subrange(first + 1, word.len() as int)]);
        }
    } else {
        assert(pieces(word, d) == seq![word.subrange(0, word.len() as int)]);
    }
}

/// The static file that the request `text` asks for, below the directory
/// of static files: named by the first word that holds `/static`.
pub open spec fn asset(text: Seq<char>) -> Option<Seq<char>> {
    match first_holding(words(text), "/static"@, 0) {
        Some(word) => Some(relative_path(word)),
        None => None,
    }
}

/// The content type of a file, by what its path holds.
pub open spec fn content_type_of(path: Seq<char>) -> ContentType {
    if contains(path, "htm"@) {
        ContentType::Html
    } else if contains(path, "txt"@) {
        ContentType::PlainText
    } else if contains(path, "css"@) {
        ContentType::Css
    } else if contains(path, "png"@) || contains(path, "jpg"@) || contains(path, "ico"@) {
        ContentType::AvifImage
    } else {
        ContentType::Html
    }
}

/// What is read of a file, as plain bytes.
pub open spec fn content_of(file: Option<&[u8]>) -> Option<Seq<u8>> {
    match file {
        Some(content) => Some(content@),
        None => None,
    }
}

/// What is answered to the request `text` for a static file, given what
/// was read of the file: the file, or the answer for what is not found.
pub open spec fn static_answer(text: Seq<char>, file: Option<Seq<u8>>) -> Seq<u8> {
    match (asset(text), file) {
        (Some(path), Some(content)) => answer(HttpStatus::Okay, content_type_of(path), content),
        _ => not_found_answer(),
    }
}

/// The content type of a file, by what its path holds.
pub fn parse_content_type(req: &str) -> (r: ContentType)
    ensures
        r == content_type_of(req@),
{
    if has(req, "htm") {
        ContentType::Html
    } else if has(req, "txt") {
        ContentType::PlainText
    } else if has(req, "css") {
        ContentType::Css
    } else if has(req, "png") || has(req, "jpg") || has(req, "ico") {
        ContentType::AvifImage
    } else {
        ContentType::Html
    }
}

fn path_below(word: &str) -> (rel: String)
    ensures
        rel@ == relative_path(word@),
{
    let segs = split(word, Delim::Char('/'));
    let mut rel = String::new();
    if segs.len() <= 2 {
        return rel;
    }
    proof {
        reveal_strlit("/");
    }
    let ghost rest = views(segs@).skip(2);
    let mut k: usize = 2;
    assert(rest.take(0) =~= Seq::<Seq<char>>::empty());
    while k < segs.len()
        invariant
            2 <= k <= segs.len(),
            rest == views(segs@).skip(2),
            rel@ == join(rest.take(k - 2), '/'),
            "/"@ == seq!['/'],
        decreases segs.len() - k,
    {
        let ghost done = rest.take(k - 2);
        let ghost next = rest.take(k - 1);
        assert(next.drop_last() == done);
        assert(next.last() == segs[k as int]@);
        if k > 2 {
            rel.append("/");
        }
        rel.append(segs[k]);
        assert(rel@ =~= join(next, '/'));
        k += 1;
    }
    assert(rest.take(k - 2) == rest);
    rel
}

/// The static file that the request `text` asks for.
pub fn find_asset(text: &str) -> (r: Option<String>)
    ensures
        match r {
            Some(path) => asset(text@) == Some(path@),
            None => asset(text@) is None,
        },
{
    let ws = split_whitespace(text);
    let mut i: usize = 0;
    while i < ws.len()
        invariant
            i <= ws.len(),
            views(ws@) == words(text@),
            first_holding(words(text@), "/static"@, 0) == first_holding(
                words(text@),
                "/static"@,
                i as int,
            ),
        decreases ws.len() - i,
    {
        if has(ws[i], "/static") {
            return Some(path_below(ws[i]));
        }
        i += 1;
    }
    None
}

/// Answers the request `text` for a static file, given what was read of
/// the file.
pub fn serve(text: &str, file: Option<&[u8]>) -> (out: Vec<u8>)
    ensures
        out@ == static_answer(text@, content_of(file)),
{
    match (find_asset(text), file) {
        (Some(path), Some(content)) => respond(
            HttpStatus::Okay,
            parse_content_type(path.as_str()),
            content,
        ),
        _ => NotFound.handle(),
    }
}

impl<'a> StaticFile<'a> {
    /// Where the file that the request asks for is to be read; nowhere
    /// where the request names none.
    pub fn file_path(&self) -> (r: Option<String>)
        ensures
            match r {
                Some(path) => asset(lossy_text(self.path_buf@)) is Some && path@ == "static/"@ + asset(
                    lossy_text(self.path_buf@),
                )->0,
                None => asset(lossy_text(self.path_buf@)) is None,
            },
            valid_utf8(self.path_buf@) ==> match r {
                Some(path) => asset(decode_utf8(self.path_buf@)) is Some && path@ == "static/"@
                    + asset(decode_utf8(self.path_buf@))->0,
                None => asset(decode_utf8(self.path_buf@)) is None,
            },
    {
        let text = to_str_lossy(self.path_buf);
        match find_asset(text.as_str()) {
            Some(rel) => {
                let mut path = "static/".to_owned();
                path.append(rel.as_str());
                Some(path)
            },
            None => None,
        }
    }

    /// Answers with the file, given what was read of it; with the answer
    /// for what is not found where it could not be read.
    pub fn handle(&self, file: Option<&[u8]>) -> (out: Vec<u8>)
        ensures
            out@ == static_answer(lossy_text(self.path_buf@), content_of(file)),
            valid_utf8(self.path_buf@) ==> out@ == static_answer(
                decode_utf8(self.path_buf@),
                content_of(file),
            ),
            file is None ==> out@ == not_found_answer(),
    {
        let text = to_str_lossy(self.path_buf);
        serve(text.as_str(), file)
    }
}

/// A static file that cannot be read is answered as what is not found is.
pub proof fn lemma_missing_file_not_found(text: Seq<char>)
    ensures
        static_answer(text, None) == not_found_answer(),
{
}

} // verus!
