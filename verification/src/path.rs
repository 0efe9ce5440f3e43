//! Paths with `/` between their pieces, as both ends of the transfer write
//! them.
//!
//! A path is a text. What it names is the sequence of its components: its
//! pieces without the empty ones and without `.`, which only counts at the
//! very start of a path that does not start at the root.
use vstd::prelude::*;
use vstd::string::*;

use crate::text::{find_char, from_chars, lemma_span_before, span_before, to_chars};

verus! {

/// What stands between two pieces.
pub const SEPARATOR: char = '/';

/// The first piece of `s`.
pub open spec fn head(s: Seq<char>) -> Seq<char> {
    s.take(span_before(s, SEPARATOR) as int)
}

/// What follows the first piece of `s` and its separator.
pub open spec fn tail(s: Seq<char>) -> Seq<char> {
    let n = span_before(s, SEPARATOR) as int;
    if n < s.len() {
        s.skip(n + 1)
    } else {
        seq![]
    }
}

/// The number of characters of `s` behind its last separator.
pub open spec fn span_after(s: Seq<char>) -> nat
    decreases s.len(),
{
    if s.len() == 0 || s.last() == SEPARATOR {
        0
    } else {
        1 + span_after(s.drop_last())
    }
}

/// The last piece of `s`.
pub open spec fn last_piece(s: Seq<char>) -> Seq<char> {
    s.skip(s.len() - span_after(s))
}

/// What precedes the last piece of `s` and its separator.
pub open spec fn init(s: Seq<char>) -> Seq<char> {
    let n = span_after(s) as int;
    if n < s.len() {
        s.take(s.len() - n - 1)
    } else {
        seq![]
    }
}

/// A piece that names nothing.
pub open spec fn trivial(piece: Seq<char>) -> bool {
    piece.len() == 0 || piece == seq!['.']
}

/// `s` from its first piece that names something.
pub open spec fn trim_start(s: Seq<char>) -> Seq<char>
    decreases s.len(),
{
    if s.len() > 0 && trivial(head(s)) {
        proof {
            lemma_span_before(s, SEPARATOR);
        }
        trim_start(tail(s))
    } else {
        s
    }
}

/// `s` up to its last piece that names something.
pub open spec fn trim_end(s: Seq<char>) -> Seq<char>
    decreases s.len(),
{
    if s.len() > 0 && trivial(last_piece(s)) {
        proof {
            lemma_span_after(s);
        }
        trim_end(init(s))
    } else {
        s
    }
}

/// The pieces of `s` that name something.
pub open spec fn body(s: Seq<char>) -> Seq<Seq<char>>
    decreases s.len(),
{
    if s.len() == 0 {
        seq![]
    } else {
        proof {
            lemma_span_before(s, SEPARATOR);
        }
        if trivial(head(s)) {
            body(tail(s))
        } else {
            seq![head(s)] + body(tail(s))
        }
    }
}

/// A path from the root.
pub open spec fn rooted(s: Seq<char>) -> bool {
    s.len() > 0 && s[0] == SEPARATOR
}

/// A path that starts with the piece `.`.
pub open spec fn dotted(s: Seq<char>) -> bool {
    s.len() > 0 && head(s) == seq!['.']
}

/// The length of the root or the `.` that a path starts with.
pub open spec fn lead_len(s: Seq<char>) -> int {
    if rooted(s) || dotted(s) {
        1
    } else {
        0
    }
}

/// The components of a path. The root is the component `/`.
pub open spec fn components(s: Seq<char>) -> Seq<Seq<char>> {
    if lead_len(s) == 1 {
        seq![s.take(1)] + body(s.skip(1))
    } else {
        body(s)
    }
}

/// What is left of the pieces of `s` behind the components `base`; `None`
/// where they do not come first.
pub open spec fn strip_body(s: Seq<char>, base: Seq<Seq<char>>) -> Option<Seq<char>>
    decreases base.len(),
{
    let t = trim_start(s);
    if base.len() == 0 {
        Some(s)
    } else if t.len() == 0 || head(t) != base[0] {
        None
    } else {
        strip_body(tail(t), base.skip(1))
    }
}

/// The path of `s` below `base`, with everything between its pieces as it
/// stands in `s`; `None` where `s` is not below `base`.
pub open spec fn strip_prefix_of(s: Seq<char>, base: Seq<char>) -> Option<Seq<char>> {
    let want = components(base);
    let lead = lead_len(s);
    let rest = if want.len() > 0 && lead == 1 {
        if want[0] == s.take(1) {
            strip_body(s.skip(1), want.skip(1))
        } else {
            None
        }
    } else {
        strip_body(s, want)
    };
    if want.len() == 0 {
        Some(s.take(lead) + trim_end(s.skip(lead)))
    } else {
        match rest {
            Some(r) => Some(trim_end(trim_start(r))),
            None => None,
        }
    }
}

/// `rel` seen from `base`. A path from the root stays as it is.
pub open spec fn join_of(base: Seq<char>, rel: Seq<char>) -> Seq<char> {
    if rooted(rel) {
        rel
    } else if base.len() == 0 || base.last() == SEPARATOR {
        base + rel
    } else {
        base.push(SEPARATOR) + rel
    }
}

/// The path without its last component; `None` where there is none, or only
/// the root.
pub open spec fn parent_of(s: Seq<char>) -> Option<Seq<char>> {
    let rest = trim_end(s.skip(lead_len(s)));
    if rest.len() > 0 {
        Some(s.take(lead_len(s)) + trim_end(init(rest)))
    } else if dotted(s) {
        Some(seq![])
    } else {
        None
    }
}

/// The last component of a path, where it is a name: not the root, `.` or
/// `..`.
pub open spec fn file_name_of(s: Seq<char>) -> Option<Seq<char>> {
    let rest = trim_end(s.skip(lead_len(s)));
    if rest.len() > 0 && last_piece(rest) != seq!['.', '.'] {
        Some(last_piece(rest))
    } else {
        None
    }
}

/// `span_after` is what stands behind the last separator.
pub proof fn lemma_span_after(s: Seq<char>)
    ensures
        span_after(s) <= s.len(),
        forall|i: int| s.len() - span_after(s) <= i < s.len() ==> s[i] != SEPARATOR,
        span_after(s) < s.len() ==> s[s.len() - span_after(s) - 1] == SEPARATOR,
    decreases s.len(),
{
    if s.len() != 0 && s.last() != SEPARATOR {
        lemma_span_after(s.drop_last());
        assert forall|i: int| s.len() - span_after(s) <= i < s.len() implies s[i] != SEPARATOR by {
            if i < s.len() - 1 {
                assert(s[i] == s.drop_last()[i]);
            }
        }
    }
}

/// Only one place can be that of the last separator.
proof fn lemma_span_after_unique(s: Seq<char>, n: int)
    requires
        0 <= n <= s.len(),
        forall|i: int| s.len() - n <= i < s.len() ==> s[i] != SEPARATOR,
        n < s.len() ==> s[s.len() - n - 1] == SEPARATOR,
    ensures
        span_after(s) == n,
{
    lemma_span_after(s);
    let m = span_after(s) as int;
    if m < n {
        assert(s[s.len() - m - 1] == SEPARATOR);
    }
}

/// Whether `chars[lo..hi]` is `.` or empty.
fn is_trivial(chars: &Vec<char>, lo: usize, hi: usize) -> (b: bool)
    requires
        lo <= hi <= chars@.len(),
    ensures
        b == trivial(chars@.subrange(lo as int, hi as int)),
{
    let b = lo == hi || (hi - lo == 1 && chars[lo] == '.');
    proof {
        let piece = chars@.subrange(lo as int, hi as int);
        if piece.len() > 0 {
            assert(piece[0] == chars@[lo as int]);
        }
        if piece.len() == 1 && piece[0] == '.' {
            assert(piece == seq!['.']);
        }
    }
    b
}

/// Where `chars[lo..hi]` starts once its trivial first pieces are gone.
fn skip_trivial(chars: &Vec<char>, lo: usize, hi: usize) -> (at: usize)
    requires
        lo <= hi <= chars@.len(),
    ensures
        lo <= at <= hi,
        chars@.subrange(at as int, hi as int) == trim_start(chars@.subrange(lo as int, hi as int)),
{
    let mut at: usize = lo;
    while at < hi
        invariant
            lo <= at <= hi <= chars@.len(),
            trim_start(chars@.subrange(at as int, hi as int)) == trim_start(
                chars@.subrange(lo as int, hi as int),
            ),
        decreases hi - at,
    {
        let end: usize = find_char(chars, SEPARATOR, at, hi);
        let ghost s = chars@.subrange(at as int, hi as int);
        assert(head(s) == chars@.subrange(at as int, end as int));
        if !is_trivial(chars, at, end) {
            return at;
        }
        let next: usize = if end < hi {
            end + 1
        } else {
            hi
        };
        assert(tail(s) == chars@.subrange(next as int, hi as int));
        at = next;
    }
    at
}

/// Where the last piece of `chars[lo..hi]` starts.
fn last_start(chars: &Vec<char>, lo: usize, hi: usize) -> (at: usize)
    requires
        lo <= hi <= chars@.len(),
    ensures
        lo <= at <= hi,
        span_after(chars@.subrange(lo as int, hi as int)) == hi - at,
        at > lo ==> chars@[at - 1] == SEPARATOR,
{
    let mut at: usize = hi;
    while at > lo && chars[at - 1] != SEPARATOR
        invariant
            lo <= at <= hi <= chars@.len(),
            forall|i: int| at <= i < hi ==> chars@[i] != SEPARATOR,
        decreases at,
    {
        at -= 1;
    }
    proof {
        let s = chars@.subrange(lo as int, hi as int);
        assert(at > lo ==> s[at - lo - 1] == chars@[at - 1]);
        lemma_span_after_unique(s, hi - at);
    }
    at
}

/// Where `chars[lo..hi]` ends once its trivial last pieces are gone.
fn drop_trivial(chars: &Vec<char>, lo: usize, hi: usize) -> (at: usize)
    requires
        lo <= hi <= chars@.len(),
    ensures
        lo <= at <= hi,
        chars@.subrange(lo as int, at as int) == trim_end(chars@.subrange(lo as int, hi as int)),
{
    let mut at: usize = hi;
    while at > lo
        invariant
            lo <= at <= hi <= chars@.len(),
            trim_end(chars@.subrange(lo as int, at as int)) == trim_end(
                chars@.subrange(lo as int, hi as int),
            ),
        decreases at - lo,
    {
        let start: usize = last_start(chars, lo, at);
        let ghost s = chars@.subrange(lo as int, at as int);
        assert(last_piece(s) == chars@.subrange(start as int, at as int));
        if !is_trivial(chars, start, at) {
            return at;
        }
        let next: usize = if start > lo {
            start - 1
        } else {
            lo
        };
        assert(init(s) == chars@.subrange(lo as int, next as int));
        at = next;
    }
    at
}

/// The length of the root or the `.` that `chars` starts with.
fn lead(chars: &Vec<char>) -> (n: usize)
    ensures
        n == lead_len(chars@),
        n <= chars@.len(),
{
    let len: usize = chars.len();
    if len == 0 {
        return 0;
    }
    let end: usize = find_char(chars, SEPARATOR, 0, len);
    assert(chars@.subrange(0, len as int) == chars@);
    assert(head(chars@) == chars@.subrange(0, end as int));
    proof {
        if head(chars@) == seq!['.'] {
            assert(head(chars@)[0] == '.');
        }
        if end == 1 && chars@[0] == '.' {
            assert(head(chars@) == seq!['.']);
        }
    }
    if chars[0] == SEPARATOR || (end == 1 && chars[0] == '.') {
        1
    } else {
        0
    }
}

/// The views of a list of pieces.
pub open spec fn pieces_view(list: Seq<Vec<char>>) -> Seq<Seq<char>> {
    list.map_values(|p: Vec<char>| p@)
}

/// A copy of `chars[lo..hi]`.
fn copy_range(chars: &Vec<char>, lo: usize, hi: usize) -> (out: Vec<char>)
    requires
        lo <= hi <= chars@.len(),
    ensures
        out@ == chars@.subrange(lo as int, hi as int),
{
    let mut out: Vec<char> = Vec::new();
    let mut i: usize = lo;
    while i < hi
        invariant
            lo <= i <= hi <= chars@.len(),
            out@ == chars@.subrange(lo as int, i as int),
        decreases hi - i,
    {
        out.push(chars[i]);
        i += 1;
    }
    out
}

/// Whether `chars[lo..hi]` is `piece`.
fn range_is(chars: &Vec<char>, lo: usize, hi: usize, piece: &Vec<char>) -> (b: bool)
    requires
        lo <= hi <= chars@.len(),
    ensures
        b == (chars@.subrange(lo as int, hi as int) == piece@),
{
    let ghost s = chars@.subrange(lo as int, hi as int);
    if piece.len() != hi - lo {
        assert(s.len() != piece@.len());
        return false;
    }
    let mut i: usize = 0;
    while i < piece.len()
        invariant
            lo <= hi <= chars@.len(),
            piece@.len() == hi - lo,
            i <= piece@.len(),
            s == chars@.subrange(lo as int, hi as int),
            forall|j: int| 0 <= j < i ==> s[j] == piece@[j],
        decreases piece@.len() - i,
    {
        if chars[lo + i] != piece[i] {
            assert(s[i as int] != piece@[i as int]);
            return false;
        }
        i += 1;
    }
    assert(s == piece@);
    true
}

/// The components of a path, as characters.
pub(crate) fn split(chars: &Vec<char>) -> (out: Vec<Vec<char>>)
    ensures
        pieces_view(out@) == components(chars@),
{
    let len: usize = chars.len();
    let mut out: Vec<Vec<char>> = Vec::new();
    let mut at: usize = lead(chars);
    if at == 1 {
        out.push(copy_range(chars, 0, 1));
        assert(pieces_view(out@) == seq![chars@.take(1)]);
    } else {
        assert(chars@.skip(0) == chars@);
        assert(pieces_view(out@) == Seq::<Seq<char>>::empty());
    }
    assert(pieces_view(out@) + body(chars@.skip(at as int)) == components(chars@));
    while at < len
        invariant
            len == chars@.len(),
            at <= len,
            pieces_view(out@) + body(chars@.skip(at as int)) == components(chars@),
        decreases len - at,
    {
        let ghost rest = chars@.skip(at as int);
        let ghost before = pieces_view(out@);
        assert(chars@.subrange(at as int, len as int) == rest);
        let end: usize = find_char(chars, SEPARATOR, at, len);
        assert(head(rest) == chars@.subrange(at as int, end as int));
        let next: usize = if end < len {
            end + 1
        } else {
            len
        };
        assert(tail(rest) == chars@.skip(next as int));
        if !is_trivial(chars, at, end) {
            let piece = copy_range(chars, at, end);
            out.push(piece);
            assert(pieces_view(out@) == before.push(piece@));
            assert(pieces_view(out@) + body(tail(rest)) == before + body(rest));
        }
        at = next;
    }
    assert(chars@.skip(at as int) == Seq::<char>::empty());
    assert(pieces_view(out@) + body(chars@.skip(at as int)) == pieces_view(out@));
    out
}

/// Whether two paths have the same components.
pub fn same_path(a: &str, b: &str) -> (same: bool)
    ensures
        same == (components(a@) == components(b@)),
{
    let left = split(&to_chars(a));
    let right = split(&to_chars(b));
    let ghost ca = components(a@);
    let ghost cb = components(b@);
    assert(ca.len() == left@.len() && cb.len() == right@.len());
    if left.len() != right.len() {
        return false;
    }
    let mut i: usize = 0;
    while i < left.len()
        invariant
            left@.len() == right@.len(),
            i <= left@.len(),
            ca == pieces_view(left@),
            cb == pieces_view(right@),
            ca == components(a@),
            cb == components(b@),
            forall|j: int| 0 <= j < i ==> ca[j] == cb[j],
        decreases left@.len() - i,
    {
        let piece = &left[i];
        assert(piece@.subrange(0, piece@.len() as int) == piece@);
        assert(ca[i as int] == left@[i as int]@ && cb[i as int] == right@[i as int]@);
        if !range_is(piece, 0, piece.len(), &right[i]) {
            assert(ca[i as int] != cb[i as int]);
            return false;
        }
        i += 1;
    }
    assert(ca == cb);
    true
}

/// A path is not below the directory it was looked for in.
#[derive(Debug, Clone, Copy, PartialEq, Eq, Structural)]
pub struct StripPrefixError;

/// The path of `s` below `base`.
pub fn strip_prefix(s: &str, base: &str) -> (res: Result<String, StripPrefixError>)
    ensures
        res is Ok <==> strip_prefix_of(s@, base@) is Some,
        res matches Ok(rel) ==> strip_prefix_of(s@, base@) == Some(rel@),
{
    let chars = to_chars(s);
    let len: usize = chars.len();
    let want = split(&to_chars(base));
    let ghost base_parts = components(base@);
    assert(base_parts.len() == want@.len());
    let first: usize = lead(&chars);
    if want.len() == 0 {
        let end: usize = drop_trivial(&chars, first, len);
        let out = from_chars(&chars, 0, end);
        proof {
            assert(chars@.subrange(first as int, len as int) == s@.skip(first as int));
            assert(out@ == s@.take(first as int) + chars@.subrange(first as int, end as int));
        }
        return Ok(out);
    }
    let mut at: usize = 0;
    let mut i: usize = 0;
    if first == 1 {
        assert(chars@.subrange(0, 1) == s@.take(1));
        assert(base_parts[0] == want@[0]@);
        if !range_is(&chars, 0, 1, &want[0]) {
            return Err(StripPrefixError);
        }
        at = 1;
        i = 1;
    } else {
        assert(s@.skip(0) == s@);
        assert(base_parts.skip(0) == base_parts);
    }
    let ghost goal = strip_body(s@.skip(at as int), base_parts.skip(i as int));
    while i < want.len()
        invariant
            chars@ == s@,
            len == chars@.len(),
            at <= len,
            i <= want@.len(),
            base_parts == pieces_view(want@),
            goal == strip_body(s@.skip(at as int), base_parts.skip(i as int)),
            match goal {
                Some(r) => strip_prefix_of(s@, base@) == Some(trim_end(trim_start(r))),
                None => strip_prefix_of(s@, base@) is None,
            },
        decreases want@.len() - i,
    {
        let ghost rest = s@.skip(at as int);
        assert(chars@.subrange(at as int, len as int) == rest);
        let start: usize = skip_trivial(&chars, at, len);
        let end: usize = find_char(&chars, SEPARATOR, start, len);
        let ghost t = trim_start(rest);
        assert(chars@.subrange(start as int, len as int) == t);
        assert(head(t) == chars@.subrange(start as int, end as int));
        assert(base_parts.skip(i as int)[0] == want@[i as int]@);
        if start == len || !range_is(&chars, start, end, &want[i]) {
            return Err(StripPrefixError);
        }
        let next: usize = if end < len {
            end + 1
        } else {
            len
        };
        assert(tail(t) == s@.skip(next as int));
        assert(base_parts.skip(i as int).skip(1) == base_parts.skip(i + 1));
        at = next;
        i += 1;
    }
    assert(chars@.subrange(at as int, len as int) == s@.skip(at as int));
    let start: usize = skip_trivial(&chars, at, len);
    let end: usize = drop_trivial(&chars, start, len);
    Ok(from_chars(&chars, start, end))
}

/// `rel` seen from `base`.
pub fn join(base: &str, rel: &str) -> (out: String)
    ensures
        out@ == join_of(base@, rel@),
{
    let rel_chars = to_chars(rel);
    if rel_chars.len() > 0 && rel_chars[0] == SEPARATOR {
        return rel.to_owned();
    }
    let base_chars = to_chars(base);
    let mut out = base.to_owned();
    if base_chars.len() > 0 && base_chars[base_chars.len() - 1] != SEPARATOR {
        out.push(SEPARATOR);
    }
    out.append(rel);
    out
}

/// The path without its last component.
pub fn parent(s: &str) -> (res: Option<String>)
    ensures
        res is Some <==> parent_of(s@) is Some,
        res matches Some(dir) ==> parent_of(s@) == Some(dir@),
{
    let chars = to_chars(s);
    let len: usize = chars.len();
    let first: usize = lead(&chars);
    assert(chars@.subrange(first as int, len as int) == s@.skip(first as int));
    let end: usize = drop_trivial(&chars, first, len);
    let ghost rest = chars@.subrange(first as int, end as int);
    if end == first {
        if first == 1 && chars[0] != SEPARATOR {
            return Some(String::new());
        }
        assert(rooted(s@) ==> head(s@).len() == 0);
        return None;
    }
    let start: usize = last_start(&chars, first, end);
    let cut: usize = if start > first {
        start - 1
    } else {
        first
    };
    assert(init(rest) == chars@.subrange(first as int, cut as int));
    let stop: usize = drop_trivial(&chars, first, cut);
    let out = from_chars(&chars, 0, stop);
    assert(out@ == s@.take(first as int) + chars@.subrange(first as int, stop as int));
    Some(out)
}

/// The last component of a path, where it is a name.
pub fn file_name(s: &str) -> (res: Option<String>)
    ensures
        res is Some <==> file_name_of(s@) is Some,
        res matches Some(name) ==> file_name_of(s@) == Some(name@),
{
    let chars = to_chars(s);
    let len: usize = chars.len();
    let first: usize = lead(&chars);
    assert(chars@.subrange(first as int, len as int) == s@.skip(first as int));
    let end: usize = drop_trivial(&chars, first, len);
    let ghost rest = chars@.subrange(first as int, end as int);
    if end == first {
        return None;
    }
    let start: usize = last_start(&chars, first, end);
    let ghost piece = chars@.subrange(start as int, end as int);
    assert(last_piece(rest) == piece);
    proof {
        if piece == seq!['.', '.'] {
            assert(piece[0] == '.' && piece[1] == '.');
        }
    }
    if end - start == 2 && chars[start] == '.' && chars[start + 1] == '.' {
        assert(piece == seq!['.', '.']);
        return None;
    }
    Some(from_chars(&chars, start, end))
}

} // verus!
