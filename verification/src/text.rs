//! Text as the tool meets it: the output of shell commands, taken apart into
//! lines, words and numbers, and the pieces of the messages it prints.
use vstd::prelude::*;
use vstd::string::*;

verus! {

/// Appends one character: `String::push` leaves the old text with the
/// character behind it.
pub assume_specification[ String::push ](s: &mut String, c: char)
    ensures
        final(s)@ == old(s)@.push(c),
;

/// The characters of `s`, in order.
pub fn to_chars(s: &str) -> (out: Vec<char>)
    ensures
        out@ == s@,
{
    let mut out: Vec<char> = Vec::new();
    for c in it: s.chars()
        invariant
            it.seq() == s@,
            out@ == s@.take(it.index() as int),
    {
        out.push(c);
    }
    assert(s@.take(s@.len() as int) == s@);
    out
}

/// The text made of `chars[lo..hi]`.
pub fn from_chars(chars: &Vec<char>, lo: usize, hi: usize) -> (out: String)
    requires
        lo <= hi <= chars@.len(),
    ensures
        out@ == chars@.subrange(lo as int, hi as int),
{
    let mut out = String::new();
    let mut i: usize = lo;
    while i < hi
        invariant
            lo <= i <= hi <= chars@.len(),
            out@ == chars@.subrange(lo as int, i as int),
        decreases hi - i,
    {
        out.push(chars[i]);
        i += 1;
    }
    out
}

/// The views of a list of texts.
pub open spec fn views(list: Seq<String>) -> Seq<Seq<char>> {
    list.map_values(|s: String| s@)
}

/// The text of a byte string: `String::from_utf8` gives the characters that
/// the bytes encode where they are valid UTF-8, and an error, here `None`,
/// where they are not.
#[verifier::external_body]
fn string_from_utf8(bytes: Vec<u8>) -> (res: Option<String>)
    ensures
        res is Some <==> vstd::utf8::valid_utf8(bytes@),
        res matches Some(text) ==> text@ == vstd::utf8::decode_utf8(bytes@),
{
    String::from_utf8(bytes).ok()
}

/// What a command printed is not UTF-8.
#[derive(Debug, Clone, Copy, PartialEq, Eq, Structural)]
pub struct DecodeError;

/// Reads the output of a command as text. Fails exactly where the bytes are
/// not valid UTF-8.
pub fn decode_output(bytes: Vec<u8>) -> (res: Result<String, DecodeError>)
    ensures
        res is Ok <==> vstd::utf8::valid_utf8(bytes@),
        res matches Ok(text) ==> text@ == vstd::utf8::decode_utf8(bytes@),
{
    match string_from_utf8(bytes) {
        Some(text) => Ok(text),
        None => Err(DecodeError),
    }
}

/// The number of characters of `s` before its first `c`; all of them where
/// there is none.
pub open spec fn span_before(s: Seq<char>, c: char) -> nat
    decreases s.len(),
{
    if s.len() == 0 || s[0] == c {
        0
    } else {
        1 + span_before(s.skip(1), c)
    }
}

/// `span_before` is where the first `c` stands.
pub proof fn lemma_span_before(s: Seq<char>, c: char)
    ensures
        span_before(s, c) <= s.len(),
        forall|i: int| 0 <= i < span_before(s, c) ==> s[i] != c,
        span_before(s, c) < s.len() ==> s[span_before(s, c) as int] == c,
    decreases s.len(),
{
    if s.len() != 0 && s[0] != c {
        lemma_span_before(s.skip(1), c);
        assert forall|i: int| 0 <= i < span_before(s, c) implies s[i] != c by {
            if i > 0 {
                assert(s[i] == s.skip(1)[i - 1]);
            }
        }
    }
}

/// Only one place can be that of the first `c`.
pub proof fn lemma_span_before_unique(s: Seq<char>, c: char, n: int)
    requires
        0 <= n <= s.len(),
        forall|i: int| 0 <= i < n ==> s[i] != c,
        n < s.len() ==> s[n] == c,
    ensures
        span_before(s, c) == n,
{
    lemma_span_before(s, c);
    let m = span_before(s, c) as int;
    if m < n {
        assert(s[m] == c);
    }
}

/// The first `c` of `chars[lo..hi]`, or `hi`.
pub fn find_char(chars: &Vec<char>, c: char, lo: usize, hi: usize) -> (at: usize)
    requires
        lo <= hi <= chars@.len(),
    ensures
        lo <= at <= hi,
        at == lo + span_before(chars@.subrange(lo as int, hi as int), c),
{
    let mut at: usize = lo;
    while at < hi && chars[at] != c
        invariant
            lo <= at <= hi <= chars@.len(),
            forall|i: int| lo <= i < at ==> chars@[i] != c,
        decreases hi - at,
    {
        at += 1;
    }
    proof {
        let s = chars@.subrange(lo as int, hi as int);
        assert(at < hi ==> s[at - lo] == c);
        lemma_span_before_unique(s, c, at - lo);
    }
    at
}

/// A line without the carriage return at its end.
pub open spec fn without_cr(line: Seq<char>) -> Seq<char> {
    if line.len() > 0 && line.last() == '\r' {
        line.drop_last()
    } else {
        line
    }
}

/// The lines of `s`. Each line feed ends a line, and takes a carriage return
/// before it along; what follows the last line feed is a line where it is not
/// empty.
pub open spec fn lines_of(s: Seq<char>) -> Seq<Seq<char>>
    decreases s.len(),
{
    let n = span_before(s, '\n');
    if s.len() == 0 {
        seq![]
    } else if n >= s.len() {
        seq![s]
    } else {
        seq![without_cr(s.take(n as int))] + lines_of(s.skip(n as int + 1))
    }
}

/// Takes `s` apart into its lines.
pub fn lines(s: &str) -> (out: Vec<String>)
    ensures
        views(out@) == lines_of(s@),
{
    let chars = to_chars(s);
    let len: usize = chars.len();
    let mut out: Vec<String> = Vec::new();
    let mut at: usize = 0;
    assert(s@.skip(0) == s@);
    while at < len
        invariant
            chars@ == s@,
            len == chars@.len(),
            at <= len,
            views(out@) + lines_of(s@.skip(at as int)) == lines_of(s@),
        decreases len - at,
    {
        let ghost rest = s@.skip(at as int);
        let ghost before = views(out@);
        assert(chars@.subrange(at as int, len as int) == rest);
        let end: usize = find_char(&chars, '\n', at, len);
        if end < len {
            let stop: usize = if end > at && chars[end - 1] == '\r' {
                end - 1
            } else {
                end
            };
            let line = from_chars(&chars, at, stop);
            assert(line@ == without_cr(rest.take(end - at)));
            out.push(line);
            assert(views(out@) == before.push(line@));
            assert(s@.skip(end + 1) == rest.skip(end - at + 1));
            assert(views(out@) + lines_of(s@.skip(end + 1)) == before + lines_of(rest));
            at = end + 1;
        } else {
            let line = from_chars(&chars, at, len);
            assert(line@ == rest);
            out.push(line);
            assert(views(out@) == before.push(line@));
            assert(s@.skip(len as int) == Seq::<char>::empty());
            assert(views(out@) + lines_of(s@.skip(len as int)) == before + lines_of(rest));
            at = len;
        }
    }
    assert(s@.skip(at as int) == Seq::<char>::empty());
    assert(views(out@) + lines_of(s@.skip(at as int)) == views(out@));
    out
}

/// How often `c` occurs in `s`.
pub open spec fn count_of(s: Seq<char>, c: char) -> nat
    decreases s.len(),
{
    if s.len() == 0 {
        0
    } else {
        count_of(s.drop_last(), c) + if s.last() == c {
            1nat
        } else {
            0nat
        }
    }
}

/// Counts the line feeds of `s`.
pub fn count_newlines(s: &str) -> (n: usize)
    ensures
        n == count_of(s@, '\n'),
{
    let chars = to_chars(s);
    let mut n: usize = 0;
    let mut i: usize = 0;
    while i < chars.len()
        invariant
            chars@ == s@,
            i <= chars@.len(),
            n == count_of(s@.take(i as int), '\n'),
            n <= i,
        decreases chars@.len() - i,
    {
        assert(s@.take(i + 1).drop_last() == s@.take(i as int));
        if chars[i] == '\n' {
            n += 1;
        }
        i += 1;
    }
    assert(s@.take(i as int) == s@);
    n
}

/// Unicode white space: the characters with the property `White_Space`.
pub open spec fn white_space(c: char) -> bool {
    ||| '\u{9}' <= c <= '\u{d}'
    ||| c == ' '
    ||| c == '\u{85}'
    ||| c == '\u{a0}'
    ||| c == '\u{1680}'
    ||| '\u{2000}' <= c <= '\u{200a}'
    ||| c == '\u{2028}'
    ||| c == '\u{2029}'
    ||| c == '\u{202f}'
    ||| c == '\u{205f}'
    ||| c == '\u{3000}'
}

/// Whether `c` is white space.
pub fn is_white_space(c: char) -> (b: bool)
    ensures
        b == white_space(c),
{
    ('\u{9}' <= c && c <= '\u{d}') || c == ' ' || c == '\u{85}' || c == '\u{a0}' || c == '\u{1680}'
        || ('\u{2000}' <= c && c <= '\u{200a}') || c == '\u{2028}' || c == '\u{2029}' || c
        == '\u{202f}' || c == '\u{205f}' || c == '\u{3000}'
}

/// The number of characters of `s` before its first white space.
pub open spec fn word_len(s: Seq<char>) -> nat
    decreases s.len(),
{
    if s.len() == 0 || white_space(s[0]) {
        0
    } else {
        1 + word_len(s.skip(1))
    }
}

/// The words of `s`: the longest runs of characters that are not white space.
pub open spec fn words_of(s: Seq<char>) -> Seq<Seq<char>>
    decreases s.len(),
{
    if s.len() == 0 {
        seq![]
    } else if white_space(s[0]) {
        words_of(s.skip(1))
    } else {
        proof {
            lemma_word_len(s);
        }
        let n = word_len(s) as int;
        seq![s.take(n)] + words_of(s.skip(n))
    }
}

/// A word lies within the text, and is not empty where the text starts with it.
pub proof fn lemma_word_len(s: Seq<char>)
    ensures
        word_len(s) <= s.len(),
        s.len() > 0 && !white_space(s[0]) ==> word_len(s) > 0,
    decreases s.len(),
{
    if s.len() > 0 && !white_space(s[0]) {
        lemma_word_len(s.skip(1));
    }
}

/// Takes `s` apart into its words.
pub fn words(s: &str) -> (out: Vec<String>)
    ensures
        views(out@) == words_of(s@),
{
    let chars = to_chars(s);
    let len: usize = chars.len();
    let mut out: Vec<String> = Vec::new();
    let mut at: usize = 0;
    assert(s@.skip(0) == s@);
    while at < len
        invariant
            chars@ == s@,
            len == chars@.len(),
            at <= len,
            views(out@) + words_of(s@.skip(at as int)) == words_of(s@),
        decreases len - at,
    {
        let ghost rest = s@.skip(at as int);
        if is_white_space(chars[at]) {
            assert(rest.skip(1) == s@.skip(at + 1));
            at += 1;
        } else {
            let ghost before = views(out@);
            let mut end: usize = at;
            while end < len && !is_white_space(chars[end])
                invariant
                    chars@ == s@,
                    len == chars@.len(),
                    at <= end <= len,
                    rest == s@.skip(at as int),
                    word_len(rest) == (end - at) + word_len(s@.skip(end as int)),
                decreases len - end,
            {
                assert(s@.skip(end as int).skip(1) == s@.skip(end + 1));
                end += 1;
            }
            let word = from_chars(&chars, at, end);
            proof {
                assert(!white_space(rest[0]));
                assert(word_len(rest) > 0);
                assert(word_len(rest) == end - at);
                assert(word@ == rest.take(end - at));
                assert(rest.skip(end - at) == s@.skip(end as int));
            }
            out.push(word);
            assert(views(out@) == before.push(word@));
            assert(views(out@) + words_of(s@.skip(end as int)) == before + words_of(rest));
            at = end;
        }
    }
    assert(s@.skip(at as int) == Seq::<char>::empty());
    assert(views(out@) + words_of(s@.skip(at as int)) == views(out@));
    out
}

} // verus!
