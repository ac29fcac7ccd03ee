//! The response model and its wire form.

use crate::http::strmap::{Entry, StrMap};
use crate::text::{lemma_encode_concat, same};
use vstd::prelude::*;
use vstd::std_specs::convert::FromSpecImpl;
use vstd::string::*;
use vstd::utf8::*;

verus! {

/// The protocol version.
#[derive(Debug, Copy, Clone, PartialEq, Eq, Structural)]
pub enum HttpVersion {
    V1_1,
    Invalid,
}

impl HttpVersion {
    /// How the version is written.
    pub open spec fn text(self) -> Seq<char> {
        match self {
            HttpVersion::V1_1 => "HTTP/1.1"@,
            HttpVersion::Invalid => "Invalid http version"@,
        }
    }

    /// The version that `s` names: anything but `HTTP/1.1` is invalid.
    pub open spec fn of(s: Seq<char>) -> HttpVersion {
        if s == "HTTP/1.1"@ {
            HttpVersion::V1_1
        } else {
            HttpVersion::Invalid
        }
    }

    /// The version as it is written.
    pub fn as_str(&self) -> (r: &'static str)
        ensures
            r@ == self.text(),
    {
        match self {
            HttpVersion::V1_1 => "HTTP/1.1",
            HttpVersion::Invalid => "Invalid http version",
        }
    }

    /// The version as it is written.
    pub fn to_string(&self) -> (r: String)
        ensures
            r@ == self.text(),
    {
        self.as_str().to_owned()
    }
}

impl From<&str> for HttpVersion {
    fn from(version: &str) -> (r: Self) {
        if same(version, "HTTP/1.1") {
            HttpVersion::V1_1
        } else {
            HttpVersion::Invalid
        }
    }
}

impl FromSpecImpl<&str> for HttpVersion {
    open spec fn obeys_from_spec() -> bool {
        true
    }

    open spec fn from_spec(version: &str) -> Self {
        HttpVersion::of(version@)
    }
}

/// The status of a response.
#[derive(Debug, Copy, Clone, PartialEq, Eq, Structural)]
pub enum HttpStatus {
    Okay,
    NotFound,
    BadRequest,
    InternalServerError,
}

impl HttpStatus {
    /// The status code and its reason phrase.
    pub open spec fn text(self) -> Seq<char> {
        match self {
            HttpStatus::Okay => "200 OK"@,
            HttpStatus::NotFound => "404 Not Found"@,
            HttpStatus::BadRequest => "400 Bad Request"@,
            HttpStatus::InternalServerError => "500 Internal Server Error"@,
        }
    }

    /// The status as it is written.
    pub fn as_str(&self) -> (r: &'static str)
        ensures
            r@ == self.text(),
    {
        match self {
            HttpStatus::Okay => "200 OK",
            HttpStatus::NotFound => "404 Not Found",
            HttpStatus::BadRequest => "400 Bad Request",
            HttpStatus::InternalServerError => "500 Internal Server Error",
        }
    }

    /// The status as it is written.
    pub fn to_string(&self) -> (r: String)
        ensures
            r@ == self.text(),
    {
        self.as_str().to_owned()
    }
}

/// The kinds of content that are served.
#[derive(Debug, Copy, Clone, PartialEq, Eq, Structural)]
pub enum ContentType {
    Html,
    PlainText,
    AvifImage,
    Css,
}

impl ContentType {
    /// The value of the `Content-Type` header.
    pub open spec fn text(self) -> Seq<char> {
        match self {
            ContentType::Html => "text/html; charset=utf-8"@,
            ContentType::Css => "text/css; charset=utf-8"@,
            ContentType::AvifImage => "image/avif"@,
            ContentType::PlainText => "text/plain; charset=utf-8"@,
        }
    }

    /// The content type that the media type `s` names; plain text for one
    /// that is not known.
    pub open spec fn of(s: Seq<char>) -> ContentType {
        if s == "text/plain"@ {
            ContentType::PlainText
        } else if s == "text/html"@ {
            ContentType::Html
        } else if s == "text/css"@ {
            ContentType::Css
        } else if s == "image/avif"@ {
            ContentType::AvifImage
        } else {
            ContentType::PlainText
        }
    }

    /// The content type as it is written.
    pub fn as_str(&self) -> (r: &'static str)
        ensures
            r@ == self.text(),
    {
        match self {
            ContentType::Html => "text/html; charset=utf-8",
            ContentType::Css => "text/css; charset=utf-8",
            ContentType::AvifImage => "image/avif",
            ContentType::PlainText => "text/plain; charset=utf-8",
        }
    }

    /// The content type as it is written.
    pub fn to_string(&self) -> (r: String)
        ensures
            r@ == self.text(),
    {
        self.as_str().to_owned()
    }
}

impl From<&str> for ContentType {
    fn from(value: &str) -> (r: Self) {
        if same(value, "text/plain") {
            ContentType::PlainText
        } else if same(value, "text/html") {
            ContentType::Html
        } else if same(value, "text/css") {
            ContentType::Css
        } else if same(value, "image/avif") {
            ContentType::AvifImage
        } else {
            ContentType::PlainText
        }
    }
}

impl FromSpecImpl<&str> for ContentType {
    open spec fn obeys_from_spec() -> bool {
        true
    }

    open spec fn from_spec(value: &str) -> Self {
        ContentType::of(value@)
    }
}

/// One header line, without its line end.
pub open spec fn header_line(e: Entry) -> Seq<char> {
    e.0 + seq![':', ' '] + e.1
}

/// The header lines in their order, with a line end between each two.
pub open spec fn header_block(h: Seq<Entry>) -> Seq<char>
    decreases h.len(),
{
    if h.len() == 0 {
        Seq::empty()
    } else if h.len() == 1 {
        header_line(h[0])
    } else {
        header_block(h.drop_last()) + seq!['\r', '\n'] + header_line(h.last())
    }
}

/// The status line, with its line end.
pub open spec fn status_line(version: HttpVersion, status: HttpStatus) -> Seq<char> {
    version.text() + seq![' '] + status.text() + seq!['\r', '\n']
}

/// What parts the header lines from the body: the end of the last line,
/// and a blank line.
pub open spec fn separator() -> Seq<char> {
    seq!['\r', '\n', '\r', '\n']
}

/// All that stands before the body: the status line, the header lines, and
/// the blank line that ends them.
pub open spec fn head(version: HttpVersion, status: HttpStatus, h: Seq<Entry>) -> Seq<char> {
    status_line(version, status) + header_block(h) + separator()
}

/// The bytes that go out: the head as UTF-8, then the body as it is.
pub open spec fn wire(
    version: HttpVersion,
    status: HttpStatus,
    h: Seq<Entry>,
    body: Seq<u8>,
) -> Seq<u8> {
    encode_utf8(head(version, status, h)) + body
}

/// The wire form is the status line, then the header lines, then the
/// separator, then the body, each as it is and in this order.
pub proof fn lemma_wire_parts(
    version: HttpVersion,
    status: HttpStatus,
    h: Seq<Entry>,
    body: Seq<u8>,
)
    ensures
        wire(version, status, h, body) == encode_utf8(status_line(version, status)) + encode_utf8(
            header_block(h),
        ) + encode_utf8(separator()) + body,
{
    lemma_encode_concat(status_line(version, status) + header_block(h), separator());
    lemma_encode_concat(status_line(version, status), header_block(h));
}

/// A response: status line, headers, and a body that is borrowed.
#[derive(Debug)]
pub struct Response<'a> {
    pub version: HttpVersion,
    pub status: HttpStatus,
    pub headers: StrMap,
    pub body: &'a [u8],
}

impl<'a> Response<'a> {
    /// `HTTP/1.1 200 OK` with no header and an empty body.
    pub fn new() -> (r: Self)
        ensures
            r.version == HttpVersion::V1_1,
            r.status == HttpStatus::Okay,
            r.headers@ == Seq::<Entry>::empty(),
            r.body@ == Seq::<u8>::empty(),
    {
        let body: &'static [u8] = &[];
        Response {
            version: HttpVersion::V1_1,
            status: HttpStatus::Okay,
            headers: StrMap::new(),
            body,
        }
    }

    /// The wire form of the response.
    pub fn as_bytes(&self) -> (out: Vec<u8>)
        ensures
            out@ == wire(self.version, self.status, self.headers@, self.body@),
            out@ == encode_utf8(status_line(self.version, self.status)) + encode_utf8(
                header_block(self.headers@),
            ) + encode_utf8(separator()) + self.body@,
            out@.subrange(out@.len() - self.body@.len(), out@.len() as int) == self.body@,
    {
        proof {
            reveal_strlit(" ");
            reveal_strlit("\r\n");
            reveal_strlit(": ");
            reveal_strlit("\r\n\r\n");
        }
        let mut text = self.version.to_string();
        text.append(" ");
        text.append(self.status.as_str());
        text.append("\r\n");
        let ghost start = text@;
        assert(start =~= status_line(self.version, self.status));
        proof {
            lemma_wire_parts(self.version, self.status, self.headers@, self.body@);
        }
        let n = self.headers.len();
        let mut i: usize = 0;
        while i < n
            invariant
                n == self.headers@.len(),
                i <= n,
                text@ == start + header_block(self.headers@.take(i as int)),
                "\r\n"@ == seq!['\r', '\n'],
                ": "@ == seq![':', ' '],
            decreases n - i,
        {
            let ghost done = self.headers@.take(i as int);
            let ghost next = self.headers@.take(i + 1);
            assert(next.drop_last() == done);
            assert(next.last() == self.headers@[i as int]);
            if i > 0 {
                text.append("\r\n");
            }
            text.append(self.headers.key(i));
            text.append(": ");
            text.append(self.headers.value(i));
            assert(text@ =~= start + header_block(next));
            i += 1;
        }
        assert(self.headers@.take(n as int) == self.headers@);
        text.append("\r\n\r\n");
        assert(text@ =~= head(self.version, self.status, self.headers@));
        let mut out = text.as_str().as_bytes_vec();
        let ghost first = out@;
        let mut j: usize = 0;
        while j < self.body.len()
            invariant
                j <= self.body@.len(),
                out@ == first + self.body@.take(j as int),
            decreases self.body@.len() - j,
        {
            out.push(self.body[j]);
            assert(self.body@.take(j + 1) == self.body@.take(j as int).push(self.body@[j as int]));
            j += 1;
        }
        assert(self.body@.take(j as int) == self.body@);
        out
    }
}

} // verus!
