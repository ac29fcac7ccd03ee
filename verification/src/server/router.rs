//! Which handler a request goes to.

use crate::text::lemma_encode_first;
use vstd::prelude::*;
use vstd::string::*;
use vstd::utf8::*;

verus! {

/// The handlers that a request can go to.
#[derive(Debug, Clone, Copy, PartialEq, Eq, Structural)]
pub enum Route {
    Index,
    StaticFile,
    VisitCount,
    NotFound,
}

/// `buf` begins with `prefix`.
pub open spec fn begins_with(buf: Seq<u8>, prefix: Seq<u8>) -> bool {
    prefix.len() <= buf.len() && buf.take(prefix.len() as int) == prefix
}

/// The route of a request, by what its bytes begin with; the first rule
/// that holds decides.
pub open spec fn route_of(buf: Seq<u8>) -> Route {
    if begins_with(buf, encode_utf8("GET / HTTP/1.1"@)) {
        Route::Index
    } else if begins_with(buf, encode_utf8("GET /static"@)) {
        Route::StaticFile
    } else if begins_with(buf, encode_utf8("GET /count"@)) {
        Route::VisitCount
    } else {
        Route::NotFound
    }
}

/// Nothing but a `GET` is routed to the index, to a static file or to the
/// visit counter: a request whose first byte is not `G` is not found.
pub proof fn lemma_only_get_is_routed(buf: Seq<u8>)
    requires
        buf.len() == 0 || buf[0] != 'G' as u8,
    ensures
        route_of(buf) == Route::NotFound,
{
    reveal_strlit("GET / HTTP/1.1");
    reveal_strlit("GET /static");
    reveal_strlit("GET /count");
    lemma_first_of_prefix(buf, "GET / HTTP/1.1"@);
    lemma_first_of_prefix(buf, "GET /static"@);
    lemma_first_of_prefix(buf, "GET /count"@);
}

/// A `POST` is not found, whatever its path.
pub proof fn lemma_post_is_not_found(buf: Seq<u8>)
    requires
        begins_with(buf, encode_utf8("POST"@)),
    ensures
        route_of(buf) == Route::NotFound,
{
    reveal_strlit("POST");
    lemma_first_of_prefix(buf, "POST"@);
    lemma_only_get_is_routed(buf);
}

proof fn lemma_first_of_prefix(buf: Seq<u8>, prefix: Seq<char>)
    requires
        prefix.len() > 0,
        '\0' <= prefix[0] <= '\u{7f}',
    ensures
        begins_with(buf, encode_utf8(prefix)) ==> buf.len() > 0 && buf[0] == prefix[0] as u8,
{
    lemma_encode_first(prefix);
    if begins_with(buf, encode_utf8(prefix)) {
        assert(buf.take(encode_utf8(prefix).len() as int)[0] == buf[0]);
    }
}

/// Whether `buf` begins with `prefix`.
pub fn starts_with(buf: &[u8], prefix: &[u8]) -> (r: bool)
    ensures
        r == begins_with(buf@, prefix@),
{
    if prefix.len() > buf.len() {
        return false;
    }
    let mut i: usize = 0;
    while i < prefix.len()
        invariant
            i <= prefix.len() <= buf.len(),
            forall|k: int| 0 <= k < i ==> buf@[k] == prefix@[k],
        decreases prefix.len() - i,
    {
        if buf[i] != prefix[i] {
            assert(buf@.take(prefix.len() as int)[i as int] != prefix@[i as int]);
            return false;
        }
        i += 1;
    }
    assert(buf@.take(prefix.len() as int) =~= prefix@);
    true
}

/// Picks the handler for a request.
pub fn route(buf: &[u8]) -> (r: Route)
    ensures
        r == route_of(buf@),
{
    if starts_with(buf, "GET / HTTP/1.1".as_bytes()) {
        Route::Index
    } else if starts_with(buf, "GET /static".as_bytes()) {
        Route::StaticFile
    } else if starts_with(buf, "GET /count".as_bytes()) {
        Route::VisitCount
    } else {
        Route::NotFound
    }
}

} // verus!
