//! What a hidden path is, told by its characters and by its directories.
use vstd::prelude::*;

use crate::cli::scan::{hidden, hidden_name};
use crate::path::{body, components, dotted, head, join_of, lead_len, rooted, tail, trivial, SEPARATOR};
use crate::path_laws::law_join;
use crate::text::{lemma_span_before, span_before};

verus! {

/// A name that hides something starts at that place of the path: a dot at the
/// start of a piece, with more behind it than a second dot.
pub open spec fn hides_at(path: Seq<char>, i: int) -> bool {
    &&& 0 <= i < path.len() - 1
    &&& path[i] == '.'
    &&& i == 0 || path[i - 1] == '/'
    &&& path[i + 1] != '/'
    &&& !(path[i + 1] == '.' && (i + 2 == path.len() || path[i + 2] == '/'))
}

/// A piece hides something exactly where it does so at its start.
proof fn lemma_head_hides(s: Seq<char>)
    ensures
        hidden_name(head(s)) <==> hides_at(s, 0),
{
    lemma_span_before(s, SEPARATOR);
    let h = head(s);
    if s.len() > 0 && s[0] == '.' {
        assert(h.len() > 0 && h[0] == '.');
        if h.len() == 1 {
            assert(h == seq!['.']);
        } else {
            assert(s[1] == h[1]);
            assert(h != seq!['.']);
            if h.len() == 2 && s[1] == '.' {
                assert(h == seq!['.', '.']);
            } else if h.len() > 2 {
                assert(s[2] == h[2]);
                assert(h != seq!['.', '.']);
            } else {
                assert(h[1] != seq!['.', '.'][1]);
            }
        }
    } else if h.len() > 0 {
        assert(h[0] == s[0]);
    }
}

/// Some piece hides something exactly where some place of the text does.
proof fn lemma_body_hides(s: Seq<char>)
    ensures
        (exists|k: int| 0 <= k < body(s).len() && hidden_name(#[trigger] body(s)[k])) <==> (exists|
            i: int,
        |
            hides_at(s, i)),
    decreases s.len(),
{
    if s.len() > 0 {
        lemma_span_before(s, SEPARATOR);
        lemma_head_hides(s);
        let n = span_before(s, SEPARATOR) as int;
        let t = tail(s);
        lemma_body_hides(t);
        if exists|k: int| 0 <= k < body(s).len() && hidden_name(#[trigger] body(s)[k]) {
            let k = choose|k: int| 0 <= k < body(s).len() && hidden_name(#[trigger] body(s)[k]);
            if !trivial(head(s)) && k == 0 {
                assert(body(s)[0] == head(s));
                assert(hides_at(s, 0));
            } else {
                let j = if trivial(head(s)) {
                    k
                } else {
                    k - 1
                };
                assert(body(t)[j] == body(s)[k]);
                let i = choose|i: int| hides_at(t, i);
                assert(hides_at(t, i));
                lemma_hides_in_tail(s, i);
            }
        }
        if exists|i: int| hides_at(s, i) {
            let i = choose|i: int| hides_at(s, i);
            if i == 0 {
                assert(!trivial(head(s)));
                assert(body(s)[0] == head(s));
            } else {
                assert(i > n) by {
                    if i <= n {
                        assert(s[i - 1] != SEPARATOR);
                    }
                }
                lemma_hides_in_tail(s, i - n - 1);
                assert(hides_at(t, i - n - 1));
                let j = choose|j: int| 0 <= j < body(t).len() && hidden_name(#[trigger] body(t)[j]);
                let k = if trivial(head(s)) {
                    j
                } else {
                    j + 1
                };
                assert(body(s)[k] == body(t)[j]);
            }
        }
    }
}

/// A place behind the first separator, seen from there.
proof fn lemma_hides_in_tail(s: Seq<char>, i: int)
    requires
        i >= 0,
        span_before(s, SEPARATOR) < s.len(),
    ensures
        hides_at(tail(s), i) <==> hides_at(s, span_before(s, SEPARATOR) + 1 + i),
{
    lemma_span_before(s, SEPARATOR);
    let n = span_before(s, SEPARATOR) as int;
    let t = tail(s);
    assert(t.len() == s.len() - n - 1);
    if i < t.len() - 1 {
        assert(t[i] == s[n + 1 + i]);
        assert(t[i + 1] == s[n + 2 + i]);
        if i > 0 {
            assert(t[i - 1] == s[n + i]);
        }
        if i + 2 < t.len() {
            assert(t[i + 2] == s[n + 3 + i]);
        }
    }
}

/// A root or a `.` at the start of a path takes no name from its pieces.
proof fn lemma_body_behind_lead(s: Seq<char>)
    requires
        lead_len(s) == 1,
    ensures
        body(s) == body(s.skip(1)),
{
    lemma_span_before(s, SEPARATOR);
    if rooted(s) {
        assert(head(s).len() == 0);
        assert(tail(s) == s.skip(1));
    } else {
        assert(head(s).len() == 1);
        let r = s.skip(1);
        if s.len() == 1 {
            assert(r == tail(s));
        } else {
            assert(s[1] == SEPARATOR);
            assert(r[0] == SEPARATOR);
            assert(span_before(r, SEPARATOR) == 0);
            assert(head(r).len() == 0);
            assert(tail(r) == tail(s));
        }
    }
}

/// A path is hidden exactly where, somewhere in it, a name starts with a dot
/// and is neither `.` nor `..`: there is a dot at the start or behind a
/// separator, and what follows it, before the next separator or the end, is
/// neither nothing nor one more dot.
pub proof fn law_hidden_characters(path: Seq<char>)
    ensures
        hidden(path) <==> exists|i: int|
            {
                &&& 0 <= i < path.len() - 1
                &&& #[trigger] path[i] == '.'
                &&& i == 0 || path[i - 1] == '/'
                &&& path[i + 1] != '/'
                &&& !(path[i + 1] == '.' && (i + 2 == path.len() || path[i + 2] == '/'))
            },
        forall|i: int|
            0 <= i < path.len() - 2 && #[trigger] path[i] == '/' && path[i + 1] == '.' && path[i
                + 2] != '/' && path[i + 2] != '.' ==> hidden(path),
{
    lemma_body_hides(path);
    let names = components(path);
    let pieces = body(path);
    if lead_len(path) == 1 {
        lemma_body_behind_lead(path);
        lemma_span_before(path, SEPARATOR);
        assert(names == seq![path.take(1)] + pieces);
        assert(!hidden_name(path.take(1))) by {
            assert(path.take(1).len() == 1);
            if path.take(1)[0] == '.' {
                assert(path.take(1) == seq!['.']);
            }
        }
        if hidden(path) {
            let k = choose|k: int| 0 <= k < names.len() && hidden_name(#[trigger] names[k]);
            assert(k > 0);
            assert(pieces[k - 1] == names[k]);
        }
        if exists|k: int| 0 <= k < pieces.len() && hidden_name(#[trigger] pieces[k]) {
            let k = choose|k: int| 0 <= k < pieces.len() && hidden_name(#[trigger] pieces[k]);
            assert(names[k + 1] == pieces[k]);
        }
    } else {
        assert(names == pieces);
    }
    if hidden(path) {
        let i = choose|i: int| hides_at(path, i);
        assert(path[i] == '.');
    }
    assert forall|i: int|
        {
            &&& 0 <= i < path.len() - 1
            &&& #[trigger] path[i] == '.'
            &&& i == 0 || path[i - 1] == '/'
            &&& path[i + 1] != '/'
            &&& !(path[i + 1] == '.' && (i + 2 == path.len() || path[i + 2] == '/'))
        } implies hidden(path) by {
        assert(hides_at(path, i));
    }
    assert forall|i: int|
        0 <= i < path.len() - 2 && #[trigger] path[i] == '/' && path[i + 1] == '.' && path[i + 2]
            != '/' && path[i + 2] != '.' implies hidden(path) by {
        assert(path[i + 1] == '.');
        assert(hides_at(path, i + 1));
    }
}

/// What lies in a hidden directory is hidden, however deep, and so is what a
/// hidden path leads to; nothing else is.
pub proof fn law_hidden_inherited(dir: Seq<char>, rel: Seq<char>)
    requires
        rel.len() > 0,
        rel[0] != '/',
        !dotted(rel),
    ensures
        hidden(join_of(dir, rel)) <==> hidden(dir) || hidden(rel),
{
    law_join(dir, rel);
    let all = components(join_of(dir, rel));
    let a = components(dir);
    let b = components(rel);
    if hidden(join_of(dir, rel)) {
        let k = choose|k: int| 0 <= k < all.len() && hidden_name(#[trigger] all[k]);
        if k < a.len() {
            assert(a[k] == all[k]);
        } else {
            assert(b[k - a.len()] == all[k]);
        }
    }
    if hidden(dir) {
        let k = choose|k: int| 0 <= k < a.len() && hidden_name(#[trigger] a[k]);
        assert(all[k] == a[k]);
    }
    if hidden(rel) {
        let k = choose|k: int| 0 <= k < b.len() && hidden_name(#[trigger] b[k]);
        assert(all[a.len() + k] == b[k]);
    }
}

} // verus!
