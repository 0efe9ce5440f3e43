//! The shell commands that the tool runs, here and on the device.
use vstd::prelude::*;
use vstd::string::*;

use crate::text::to_chars;

verus! {

/// `before`, then `middle`, then `after`.
pub fn surround(before: &str, middle: &str, after: &str) -> (out: String)
    ensures
        out@ == before@ + middle@ + after@,
{
    let mut out = before.to_owned();
    out.append(middle);
    out.append(after);
    out
}

/// Lists the files below `dir`, one on a line.
pub fn find_command(dir: &str) -> (out: String)
    ensures
        out@ == "find "@ + dir@ + " -type f"@,
{
    surround("find ", dir, " -type f")
}

/// A character that means only itself to a shell.
pub open spec fn plain(c: char) -> bool {
    'a' <= c <= 'z' || 'A' <= c <= 'Z' || '0' <= c <= '9' || c == '/' || c == '.' || c == '_' || c
        == '-'
}

/// `s` as it is written between single quotes: a single quote ends them, is
/// written behind a backslash, and begins them again.
pub open spec fn escaped(s: Seq<char>) -> Seq<char>
    decreases s.len(),
{
    if s.len() == 0 {
        seq![]
    } else if s[0] == '\'' {
        seq!['\'', '\\', '\'', '\''] + escaped(s.skip(1))
    } else {
        seq![s[0]] + escaped(s.skip(1))
    }
}

/// `s` as one word of a shell command: as it is where every character is
/// plain, else in single quotes.
pub open spec fn shell_word(s: Seq<char>) -> Seq<char> {
    if s.len() > 0 && forall|i: int| 0 <= i < s.len() ==> plain(#[trigger] s[i]) {
        s
    } else {
        seq!['\''] + escaped(s) + seq!['\'']
    }
}

/// `c` before a text that could be read.
pub open spec fn before(c: char, rest: Option<Seq<char>>) -> Option<Seq<char>> {
    match rest {
        Some(s) => Some(seq![c] + s),
        None => None,
    }
}

/// The text that a shell reads from `w`, from within single quotes where
/// `quoted`; `None` where `w` is not one whole word of plain characters,
/// characters behind a backslash, and characters in single quotes.
pub open spec fn read_word(w: Seq<char>, quoted: bool) -> Option<Seq<char>>
    decreases w.len(),
{
    if w.len() == 0 {
        if quoted {
            None
        } else {
            Some(seq![])
        }
    } else if w[0] == '\'' {
        read_word(w.skip(1), !quoted)
    } else if quoted {
        before(w[0], read_word(w.skip(1), true))
    } else if w[0] == '\\' && w.len() > 1 {
        before(w[1], read_word(w.skip(2), false))
    } else if plain(w[0]) {
        before(w[0], read_word(w.skip(1), false))
    } else {
        None
    }
}

/// Plain characters are read as they are.
proof fn lemma_plain_is_read(s: Seq<char>)
    requires
        forall|i: int| 0 <= i < s.len() ==> plain(#[trigger] s[i]),
    ensures
        read_word(s, false) == Some(s),
    decreases s.len(),
{
    if s.len() > 0 {
        let rest = s.skip(1);
        assert forall|i: int| 0 <= i < rest.len() implies plain(#[trigger] rest[i]) by {
            assert(rest[i] == s[i + 1]);
        }
        lemma_plain_is_read(rest);
        assert(plain(s[0]));
        assert(seq![s[0]] + rest == s);
    } else {
        assert(s == Seq::<char>::empty());
    }
}

/// What is written between single quotes is read as it was.
proof fn lemma_escaped_is_read(s: Seq<char>)
    ensures
        read_word(escaped(s) + seq!['\''], true) == Some(s),
    decreases s.len(),
{
    let w = escaped(s) + seq!['\''];
    if s.len() == 0 {
        assert(w.skip(1) == Seq::<char>::empty());
        assert(read_word(w.skip(1), false) == Some(Seq::<char>::empty()));
        assert(s == Seq::<char>::empty());
    } else {
        let rest = escaped(s.skip(1)) + seq!['\''];
        lemma_escaped_is_read(s.skip(1));
        assert(seq![s[0]] + s.skip(1) == s);
        if s[0] == '\'' {
            assert(w == seq!['\'', '\\', '\'', '\''] + rest);
            let behind = w.skip(1);
            assert(behind.skip(2)[0] == '\'');
            assert(behind.skip(2).skip(1) == rest);
            assert(read_word(behind.skip(2), false) == Some(s.skip(1)));
            assert(read_word(behind, false) == Some(s));
        } else {
            assert(w.skip(1) == rest);
        }
    }
}

/// A shell reads a word as the text that it was made from, whatever that is.
/// Letters, digits and the characters of common names stand as they are.
pub proof fn law_shell_word(s: Seq<char>)
    ensures
        read_word(shell_word(s), false) == Some(s),
        s.len() > 0 && (forall|i: int|
            0 <= i < s.len() ==> 'a' <= #[trigger] s[i] <= 'z' || 'A' <= s[i] <= 'Z' || '0' <= s[i]
                <= '9' || s[i] == '/' || s[i] == '.' || s[i] == '_' || s[i] == '-')
            ==> shell_word(s) == s,
{
    if s.len() > 0 && forall|i: int| 0 <= i < s.len() ==> plain(#[trigger] s[i]) {
        lemma_plain_is_read(s);
    } else {
        lemma_escaped_is_read(s);
        assert(shell_word(s).skip(1) == escaped(s) + seq!['\'']);
    }
}

/// Whether every character is plain, and there is one.
fn is_plain(chars: &Vec<char>) -> (b: bool)
    ensures
        b == (chars@.len() > 0 && forall|i: int|
            0 <= i < chars@.len() ==> plain(#[trigger] chars@[i])),
{
    let mut i: usize = 0;
    while i < chars.len()
        invariant
            i <= chars@.len(),
            forall|j: int| 0 <= j < i ==> plain(#[trigger] chars@[j]),
        decreases chars@.len() - i,
    {
        let c: char = chars[i];
        if !(('a' <= c && c <= 'z') || ('A' <= c && c <= 'Z') || ('0' <= c && c <= '9') || c == '/'
            || c == '.' || c == '_' || c == '-') {
            assert(!plain(chars@[i as int]));
            return false;
        }
        i += 1;
    }
    chars.len() > 0
}

/// Writes `s` as one word of a shell command.
pub fn quote(s: &str) -> (out: String)
    ensures
        out@ == shell_word(s@),
{
    let chars = to_chars(s);
    if is_plain(&chars) {
        return s.to_owned();
    }
    let mut out = String::new();
    out.push('\'');
    let mut i: usize = 0;
    assert(chars@.skip(0) == chars@);
    assert(out@ == seq!['\'']);
    while i < chars.len()
        invariant
            i <= chars@.len(),
            out@ + escaped(chars@.skip(i as int)) == seq!['\''] + escaped(chars@),
        decreases chars@.len() - i,
    {
        let ghost rest = chars@.skip(i as int);
        let ghost done = out@;
        assert(rest[0] == chars@[i as int]);
        assert(rest.skip(1) == chars@.skip(i + 1));
        if chars[i] == '\'' {
            out.push('\'');
            out.push('\\');
            out.push('\'');
            assert(out@ + seq!['\''] + escaped(rest.skip(1)) == done + escaped(rest));
        } else {
            assert(done.push(rest[0]) + escaped(rest.skip(1)) == done + escaped(rest));
        }
        out.push(chars[i]);
        assert(out@ + escaped(rest.skip(1)) == done + escaped(rest));
        i += 1;
    }
    assert(chars@.skip(i as int) == Seq::<char>::empty());
    out.push('\'');
    assert(out@ == seq!['\''] + escaped(chars@) + seq!['\'']);
    out
}

/// Removes `path` and all below it.
pub fn remove_command(path: &str) -> (out: String)
    ensures
        out@ == "rm -r "@ + shell_word(path@),
{
    let out = surround("rm -r ", quote(path).as_str(), "");
    proof {
        reveal_strlit("");
        assert("rm -r "@ + shell_word(path@) + ""@ == "rm -r "@ + shell_word(path@));
    }
    out
}

/// Makes the directory `path`, and those it lies in.
pub fn make_dir_command(path: &str) -> (out: String)
    ensures
        out@ == "mkdir -p \""@ + path@ + "\""@,
{
    surround("mkdir -p \"", path, "\"")
}

/// Shows the space on all of a device.
pub fn storage_command() -> (out: String)
    ensures
        out@ == "df -h"@,
{
    "df -h".to_owned()
}

/// Shows the space left on the device where `dir` lies.
pub fn remote_space_command(dir: &str) -> (out: String)
    ensures
        out@ == "df \""@ + dir@ + "\" | tail -n 1"@,
{
    surround("df \"", dir, "\" | tail -n 1")
}

/// Shows the space left here where `dir` lies, in KiB.
pub fn local_space_command(dir: &str) -> (out: String)
    ensures
        out@ == "df -k \""@ + dir@ + "\" | tail -n 1"@,
{
    surround("df -k \"", dir, "\" | tail -n 1")
}

} // verus!
