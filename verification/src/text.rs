//! Character sequences: delimiters, splitting, words, substrings.

use vstd::prelude::*;
use vstd::string::*;
use vstd::utf8::*;

verus! {

/// Whether `c` has the Unicode property White_Space.
pub open spec fn is_space(c: char) -> bool {
    let n = c as u32;
    ||| 0x09 <= n <= 0x0D
    ||| n == 0x20
    ||| n == 0x85
    ||| n == 0xA0
    ||| n == 0x1680
    ||| 0x2000 <= n <= 0x200A
    ||| n == 0x2028
    ||| n == 0x2029
    ||| n == 0x202F
    ||| n == 0x205F
    ||| n == 0x3000
}

/// Whether `c` is white space.
pub fn is_whitespace(c: char) -> (r: bool)
    ensures
        r == is_space(c),
{
    let n: u32 = c as u32;
    (0x09 <= n && n <= 0x0D) || n == 0x20 || n == 0x85 || n == 0xA0 || n == 0x1680 || (0x2000 <= n
        && n <= 0x200A) || n == 0x2028 || n == 0x2029 || n == 0x202F || n == 0x205F || n == 0x3000
}

/// The characters of `s`, one by one.
pub fn chars_of(s: &str) -> (v: Vec<char>)
    ensures
        v@ == s@,
{
    let mut v: Vec<char> = Vec::new();
    for c in it: s.chars()
        invariant
            it.seq() == s@,
            v@ == s@.take(it.index()),
    {
        v.push(c);
    }
    v
}

/// The views of a sequence of string slices.
pub open spec fn views(v: Seq<&str>) -> Seq<Seq<char>> {
    Seq::new(v.len(), |i: int| v[i]@)
}

/// What a text is cut at: one character, or any white space.
#[derive(Clone, Copy, Debug)]
pub enum Delim {
    Char(char),
    Whitespace,
}

impl Delim {
    /// `c` is a delimiter.
    pub open spec fn hits(self, c: char) -> bool {
        match self {
            Delim::Char(d) => c == d,
            Delim::Whitespace => is_space(c),
        }
    }

    /// Whether `c` is a delimiter.
    pub fn test(&self, c: char) -> (r: bool)
        ensures
            r == self.hits(c),
    {
        match self {
            Delim::Char(d) => c == *d,
            Delim::Whitespace => is_whitespace(c),
        }
    }
}

/// The first index at or after `i` that holds a delimiter; the length of `s`
/// when there is none.
pub open spec fn next_hit(s: Seq<char>, d: Delim, i: int) -> int
    decreases s.len() - i,
{
    if 0 <= i < s.len() && !d.hits(s[i]) {
        next_hit(s, d, i + 1)
    } else {
        i
    }
}

/// The pieces of `s` from index `i` on: what lies between one delimiter and
/// the next, empty pieces included.
pub open spec fn pieces_from(s: Seq<char>, d: Delim, i: int) -> Seq<Seq<char>>
    decreases s.len() - i,
{
    let j = next_hit(s, d, i);
    if 0 <= i <= j < s.len() {
        seq![s.subrange(i, j)] + pieces_from(s, d, j + 1)
    } else {
        seq![s.subrange(i, s.len() as int)]
    }
}

/// `s` cut at every delimiter. There is always at least one piece, and
/// there is one more piece than there are delimiters in `s`.
pub open spec fn pieces(s: Seq<char>, d: Delim) -> Seq<Seq<char>> {
    pieces_from(s, d, 0)
}

/// The maximal runs of characters of `s` that hold no white space.
pub open spec fn words(s: Seq<char>) -> Seq<Seq<char>> {
    pieces(s, Delim::Whitespace).filter(|p: Seq<char>| p.len() > 0)
}

/// `s` holds nothing but white space.
pub open spec fn is_blank(s: Seq<char>) -> bool {
    forall|i: int| 0 <= i < s.len() ==> is_space(#[trigger] s[i])
}

/// `needle` stands in `hay` at index `i`.
pub open spec fn occurs_at(hay: Seq<char>, needle: Seq<char>, i: int) -> bool {
    0 <= i && i + needle.len() <= hay.len() && hay.subrange(i, i + needle.len()) == needle
}

/// `needle` stands somewhere in `hay`.
pub open spec fn contains(hay: Seq<char>, needle: Seq<char>) -> bool {
    exists|i: int| occurs_at(hay, needle, i)
}

/// The search ends at the first delimiter, or at the end of the text.
pub proof fn lemma_next_hit_bounds(s: Seq<char>, d: Delim, i: int)
    requires
        0 <= i <= s.len(),
    ensures
        i <= next_hit(s, d, i) <= s.len(),
        next_hit(s, d, i) < s.len() ==> d.hits(s[next_hit(s, d, i)]),
        forall|k: int| i <= k < next_hit(s, d, i) ==> !d.hits(#[trigger] s[k]),
    decreases s.len() - i,
{
    if i < s.len() && !d.hits(s[i]) {
        lemma_next_hit_bounds(s, d, i + 1);
    }
}

/// Where no delimiter stands from `a` up to `b`, the search from `a` ends
/// where the search from `b` ends.
pub proof fn lemma_next_hit_skips(s: Seq<char>, d: Delim, a: int, b: int)
    requires
        0 <= a <= b <= s.len(),
        forall|k: int| a <= k < b ==> !d.hits(#[trigger] s[k]),
    ensures
        next_hit(s, d, a) == next_hit(s, d, b),
    decreases b - a,
{
    if a < b {
        lemma_next_hit_skips(s, d, a + 1, b);
    }
}

/// Cuts `s` at every delimiter.
pub fn split<'a>(s: &'a str, d: Delim) -> (out: Vec<&'a str>)
    ensures
        views(out@) == pieces(s@, d),
        out@.len() >= 1,
{
    let chars = chars_of(s);
    let n = chars.len();
    let mut out: Vec<&'a str> = Vec::new();
    let mut start: usize = 0;
    let mut i: usize = 0;
    while i < n
        invariant
            chars@ == s@,
            n == chars.len(),
            start <= i <= n,
            forall|k: int| start <= k < i ==> !d.hits(#[trigger] s@[k]),
            views(out@) + pieces_from(s@, d, start as int) == pieces(s@, d),
        decreases n - i,
    {
        if d.test(chars[i]) {
            let piece = s.substring_char(start, i);
            proof {
                lemma_next_hit_skips(s@, d, start as int, i as int);
                assert(views(out@.push(piece)) == views(out@).push(piece@));
                assert(views(out@).push(piece@) + pieces_from(s@, d, i + 1) == views(out@)
                    + pieces_from(s@, d, start as int));
            }
            out.push(piece);
            start = i + 1;
        }
        i += 1;
    }
    let piece = s.substring_char(start, n);
    proof {
        lemma_next_hit_skips(s@, d, start as int, n as int);
        assert(views(out@.push(piece)) == views(out@).push(piece@));
    }
    out.push(piece);
    out
}

/// The words of `s`: its maximal runs without white space, in order.
pub fn split_whitespace<'a>(s: &'a str) -> (out: Vec<&'a str>)
    ensures
        views(out@) == words(s@),
{
    let parts = split(s, Delim::Whitespace);
    let ghost keep = |p: Seq<char>| p.len() > 0;
    let mut out: Vec<&'a str> = Vec::new();
    let mut i: usize = 0;
    while i < parts.len()
        invariant
            i <= parts.len(),
            views(parts@) == pieces(s@, Delim::Whitespace),
            keep == |p: Seq<char>| p.len() > 0,
            views(out@) == views(parts@).take(i as int).filter(keep),
        decreases parts.len() - i,
    {
        let part = parts[i];
        proof {
            let all = views(parts@);
            assert(all.take(i + 1) == all.take(i as int).push(part@));
            lemma_filter_push(all.take(i as int), part@, keep);
            assert(views(out@.push(part)) == views(out@).push(part@));
        }
        if part.unicode_len() > 0 {
            out.push(part);
        }
        i += 1;
    }
    proof {
        assert(views(parts@).take(i as int) == views(parts@));
    }
    out
}

/// Filtering a sequence with one more item at its end.
pub proof fn lemma_filter_push<A>(s: Seq<A>, a: A, keep: spec_fn(A) -> bool)
    ensures
        s.push(a).filter(keep) == if keep(a) {
            s.filter(keep).push(a)
        } else {
            s.filter(keep)
        },
{
    reveal(Seq::filter);
    assert(s.push(a).drop_last() == s);
}

/// Whether `s` holds nothing but white space.
pub fn blank(s: &str) -> (r: bool)
    ensures
        r == is_blank(s@),
{
    let chars = chars_of(s);
    let mut i: usize = 0;
    while i < chars.len()
        invariant
            chars@ == s@,
            i <= chars.len(),
            forall|k: int| 0 <= k < i ==> is_space(#[trigger] s@[k]),
        decreases chars.len() - i,
    {
        if !is_whitespace(chars[i]) {
            return false;
        }
        i += 1;
    }
    true
}

/// Whether `needle` stands somewhere in `hay`.
pub fn has(hay: &str, needle: &str) -> (r: bool)
    ensures
        r == contains(hay@, needle@),
{
    let h = chars_of(hay);
    let n = chars_of(needle);
    if n.len() > h.len() {
        return false;
    }
    let last = h.len() - n.len();
    let mut i: usize = 0;
    while i <= last
        invariant
            h@ == hay@,
            n@ == needle@,
            n.len() <= h.len(),
            last == h.len() - n.len(),
            i <= last + 1,
            forall|k: int| 0 <= k < i ==> !occurs_at(hay@, needle@, k),
        decreases last + 1 - i,
    {
        let mut j: usize = 0;
        while j < n.len() && h[i + j] == n[j]
            invariant
                h@ == hay@,
                n@ == needle@,
                i + n.len() <= h.len(),
                j <= n.len(),
                forall|k: int| 0 <= k < j ==> hay@[i + k] == needle@[k],
            decreases n.len() - j,
        {
            j += 1;
        }
        if j == n.len() {
            assert(hay@.subrange(i as int, i + needle@.len()) == needle@);
            assert(occurs_at(hay@, needle@, i as int));
            return true;
        }
        assert(!occurs_at(hay@, needle@, i as int)) by {
            if occurs_at(hay@, needle@, i as int) {
                assert(hay@.subrange(i as int, i + needle@.len())[j as int] == needle@[j as int]);
            }
        }
        i += 1;
    }
    false
}

/// Whether the two hold the same characters.
pub fn same(a: &str, b: &str) -> (r: bool)
    ensures
        r == (a@ == b@),
{
    let x = chars_of(a);
    let y = chars_of(b);
    if x.len() != y.len() {
        return false;
    }
    let mut i: usize = 0;
    while i < x.len()
        invariant
            x@ == a@,
            y@ == b@,
            x.len() == y.len(),
            i <= x.len(),
            forall|k: int| 0 <= k < i ==> a@[k] == b@[k],
        decreases x.len() - i,
    {
        if x[i] != y[i] {
            return false;
        }
        i += 1;
    }
    assert(a@ =~= b@);
    true
}

/// The character that stands for the digit `d`.
pub open spec fn digit(d: int) -> char {
    if d == 0 {
        '0'
    } else if d == 1 {
        '1'
    } else if d == 2 {
        '2'
    } else if d == 3 {
        '3'
    } else if d == 4 {
        '4'
    } else if d == 5 {
        '5'
    } else if d == 6 {
        '6'
    } else if d == 7 {
        '7'
    } else if d == 8 {
        '8'
    } else {
        '9'
    }
}

/// `n` in decimal, without leading zeros.
pub open spec fn decimal(n: nat) -> Seq<char>
    decreases n,
{
    if n < 10 {
        seq![digit(n as int)]
    } else {
        decimal(n / 10).push(digit((n % 10) as int))
    }
}

/// The digit that `c` stands for.
pub open spec fn digit_value(c: char) -> nat {
    if c == '1' {
        1
    } else if c == '2' {
        2
    } else if c == '3' {
        3
    } else if c == '4' {
        4
    } else if c == '5' {
        5
    } else if c == '6' {
        6
    } else if c == '7' {
        7
    } else if c == '8' {
        8
    } else if c == '9' {
        9
    } else {
        0
    }
}

/// The number that the digits `s` are read as.
pub open spec fn decimal_value(s: Seq<char>) -> nat
    decreases s.len(),
{
    if s.len() == 0 {
        0
    } else {
        decimal_value(s.drop_last()) * 10 + digit_value(s.last())
    }
}

/// A number in decimal reads as that number, has only digits, and begins
/// with a zero only where it is zero; so two numbers that are written the
/// same are the same.
pub proof fn lemma_decimal(n: nat)
    ensures
        decimal_value(decimal(n)) == n,
        decimal(n).len() >= 1,
        forall|i: int| 0 <= i < decimal(n).len() ==> '0' <= #[trigger] decimal(n)[i] <= '9',
        decimal(n)[0] == '0' <==> n == 0,
    decreases n,
{
    let d = if n < 10 {
        n as int
    } else {
        (n % 10) as int
    };
    assert(digit_value(digit(d)) == d);
    assert(decimal(n).last() == digit(d));
    if n < 10 {
        assert(decimal(n).drop_last() =~= Seq::<char>::empty());
        assert(decimal_value(decimal(n).drop_last()) == 0);
    } else {
        lemma_decimal(n / 10);
        assert(decimal(n).drop_last() =~= decimal(n / 10));
        assert(decimal(n)[0] == decimal(n / 10)[0]);
    }
}

/// Two numbers that are written the same are the same.
pub proof fn lemma_decimal_injective(a: nat, b: nat)
    requires
        decimal(a) == decimal(b),
    ensures
        a == b,
{
    lemma_decimal(a);
    lemma_decimal(b);
}

fn digit_str(d: u64) -> (r: &'static str)
    requires
        d < 10,
    ensures
        r@ == seq![digit(d as int)],
{
    proof {
        reveal_strlit("0");
        reveal_strlit("1");
        reveal_strlit("2");
        reveal_strlit("3");
        reveal_strlit("4");
        reveal_strlit("5");
        reveal_strlit("6");
        reveal_strlit("7");
        reveal_strlit("8");
        reveal_strlit("9");
    }
    let r = if d == 0 {
        "0"
    } else if d == 1 {
        "1"
    } else if d == 2 {
        "2"
    } else if d == 3 {
        "3"
    } else if d == 4 {
        "4"
    } else if d == 5 {
        "5"
    } else if d == 6 {
        "6"
    } else if d == 7 {
        "7"
    } else if d == 8 {
        "8"
    } else {
        "9"
    };
    assert(r@ =~= seq![digit(d as int)]);
    r
}

/// Writes `n` in decimal.
pub fn to_decimal(n: u64) -> (r: String)
    ensures
        r@ == decimal(n as nat),
    decreases n,
{
    if n < 10 {
        digit_str(n).to_owned()
    } else {
        let mut r = to_decimal(n / 10);
        r.append(digit_str(n % 10));
        assert(r@ =~= decimal(n as nat));
        r
    }
}

/// The parts in order, with `sep` between each two.
pub open spec fn join(parts: Seq<Seq<char>>, sep: char) -> Seq<char>
    decreases parts.len(),
{
    if parts.len() == 0 {
        Seq::empty()
    } else if parts.len() == 1 {
        parts[0]
    } else {
        join(parts.drop_last(), sep) + seq![sep] + parts.last()
    }
}

/// Joining with one more part in front.
pub proof fn lemma_join_front(first: Seq<char>, rest: Seq<Seq<char>>, sep: char)
    requires
        rest.len() > 0,
    ensures
        join(seq![first] + rest, sep) == first + seq![sep] + join(rest, sep),
    decreases rest.len(),
{
    let all = seq![first] + rest;
    if rest.len() == 1 {
        assert(all.drop_last() =~= seq![first]);
        assert(join(all.drop_last(), sep) == first);
    } else {
        assert(all.drop_last() =~= seq![first] + rest.drop_last());
        lemma_join_front(first, rest.drop_last(), sep);
        assert(join(all, sep) =~= first + seq![sep] + join(rest, sep));
    }
}

/// There is at least one piece.
pub proof fn lemma_pieces_from_len(s: Seq<char>, d: Delim, i: int)
    ensures
        pieces_from(s, d, i).len() >= 1,
{
}

/// Cutting a text at a character and joining the pieces with that
/// character gives the text back.
pub proof fn lemma_join_pieces_from(s: Seq<char>, c: char, i: int)
    requires
        0 <= i <= s.len(),
    ensures
        join(pieces_from(s, Delim::Char(c), i), c) == s.subrange(i, s.len() as int),
    decreases s.len() - i,
{
    let d = Delim::Char(c);
    let j = next_hit(s, d, i);
    lemma_next_hit_bounds(s, d, i);
    if j < s.len() {
        let rest = pieces_from(s, d, j + 1);
        lemma_pieces_from_len(s, d, j + 1);
        lemma_join_pieces_from(s, c, j + 1);
        lemma_join_front(s.subrange(i, j), rest, c);
        assert(s.subrange(i, j) + seq![c] + s.subrange(j + 1, s.len() as int) =~= s.subrange(
            i,
            s.len() as int,
        ));
    }
}

/// Cutting a text at a character and joining the pieces with that
/// character gives the text back.
pub proof fn lemma_join_pieces(s: Seq<char>, c: char)
    ensures
        join(pieces(s, Delim::Char(c)), c) == s,
{
    lemma_join_pieces_from(s, c, 0);
    assert(s.subrange(0, s.len() as int) =~= s);
}

/// No piece holds a delimiter.
pub proof fn lemma_pieces_hold_no_delimiter(s: Seq<char>, d: Delim, i: int, k: int, a: int)
    requires
        0 <= i <= s.len(),
        0 <= k < pieces_from(s, d, i).len(),
        0 <= a < pieces_from(s, d, i)[k].len(),
    ensures
        !d.hits(pieces_from(s, d, i)[k][a]),
    decreases s.len() - i,
{
    let j = next_hit(s, d, i);
    lemma_next_hit_bounds(s, d, i);
    if j < s.len() {
        if k > 0 {
            assert(pieces_from(s, d, i)[k] == pieces_from(s, d, j + 1)[k - 1]);
            lemma_pieces_hold_no_delimiter(s, d, j + 1, k - 1, a);
        } else {
            assert(pieces_from(s, d, i)[0] == s.subrange(i, j));
            assert(s.subrange(i, j)[a] == s[i + a]);
        }
    } else {
        assert(pieces_from(s, d, i)[0] == s.subrange(i, s.len() as int));
        assert(s.subrange(i, s.len() as int)[a] == s[i + a]);
    }
}

/// Every word holds at least one character, and no white space.
pub proof fn lemma_words_hold_no_space(s: Seq<char>, k: int)
    requires
        0 <= k < words(s).len(),
    ensures
        words(s)[k].len() > 0,
        forall|a: int| 0 <= a < words(s)[k].len() ==> !is_space(#[trigger] words(s)[k][a]),
{
    let d = Delim::Whitespace;
    let keep = |p: Seq<char>| p.len() > 0;
    let all = pieces(s, d);
    let w = words(s)[k];
    all.lemma_filter_pred(keep, k);
    assert(all.filter(keep).contains(w));
    all.lemma_filter_contains_rev(keep, w);
    let m = choose|m: int| 0 <= m < all.len() && all[m] == w;
    assert forall|a: int| 0 <= a < w.len() implies !is_space(#[trigger] w[a]) by {
        lemma_pieces_hold_no_delimiter(s, d, 0, m, a);
    }
}

/// The characters that bytes below 128 stand for, one for each byte.
pub open spec fn ascii_text(bytes: Seq<u8>) -> Seq<char> {
    Seq::new(bytes.len(), |i: int| bytes[i] as char)
}

/// All the bytes are below 128.
pub open spec fn is_ascii_bytes(bytes: Seq<u8>) -> bool {
    forall|i: int| 0 <= i < bytes.len() ==> #[trigger] bytes[i] < 128
}

/// Bytes below 128 are UTF-8, and the text they encode has one character
/// for each byte.
pub proof fn lemma_ascii_bytes(bytes: Seq<u8>)
    requires
        is_ascii_bytes(bytes),
    ensures
        valid_utf8(bytes),
        decode_utf8(bytes) == ascii_text(bytes),
        encode_utf8(ascii_text(bytes)) == bytes,
{
    let chars = ascii_text(bytes);
    assert(is_ascii_chars(chars)) by {
        assert forall|i: int| 0 <= i < chars.len() implies '\0' <= #[trigger] chars[i]
            <= '\u{7f}' by {
            assert(bytes[i] < 128);
        }
    }
    is_ascii_chars_encode_utf8(chars);
    assert(encode_utf8(chars) =~= bytes) by {
        assert forall|i: int| 0 <= i < bytes.len() implies encode_utf8(chars)[i] == bytes[i] by {
            assert(bytes[i] < 128);
            assert(chars[i] as u8 == bytes[i]);
        }
    }
    encode_utf8_valid_utf8(chars);
    encode_utf8_decode_utf8(chars);
}

/// The encoding of a text that begins with an ASCII character begins with
/// the byte of that character.
pub proof fn lemma_encode_first(chars: Seq<char>)
    requires
        chars.len() > 0,
        '\0' <= chars[0] <= '\u{7f}',
    ensures
        encode_utf8(chars).len() > 0,
        encode_utf8(chars)[0] == chars[0] as u8,
{
    let first = seq![chars[0]];
    assert(first.len() == 1 && first[0] == chars[0]);
    assert(is_ascii_chars(first));
    is_ascii_chars_encode_utf8(first);
    assert(chars =~= first + chars.drop_first());
    lemma_encode_concat(first, chars.drop_first());
}

/// The encoding of a text in two parts is the encoding of the first part,
/// then that of the second.
pub proof fn lemma_encode_concat(a: Seq<char>, b: Seq<char>)
    ensures
        encode_utf8(a + b) == encode_utf8(a) + encode_utf8(b),
    decreases a.len(),
{
    if a.len() == 0 {
        assert(a + b =~= b);
        assert(encode_utf8(a) + encode_utf8(b) =~= encode_utf8(b));
    } else {
        assert((a + b).drop_first() =~= a.drop_first() + b);
        lemma_encode_concat(a.drop_first(), b);
        assert(encode_utf8(a + b) =~= encode_utf8(a) + encode_utf8(b));
    }
}

} // verus!
