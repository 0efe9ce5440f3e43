//! What holds of paths, whatever they are: how taking a path apart, joining
//! paths and moving a path from one directory to another fit together.
use vstd::prelude::*;

use crate::path::{body, components, dotted, file_name_of, head, init, join_of, last_piece, lead_len, lemma_span_after, parent_of, rooted, span_after, strip_body, strip_prefix_of, tail, trim_end, trim_start, trivial, SEPARATOR};
use crate::text::{lemma_span_before, lemma_span_before_unique, span_before};

verus! {

/// Where the path `s` lands when the directory `from` is copied to `to`;
/// `None` where `s` is not below `from`.
pub open spec fn moved(s: Seq<char>, from: Seq<char>, to: Seq<char>) -> Option<Seq<char>> {
    match strip_prefix_of(s, from) {
        Some(rel) => Some(join_of(to, rel)),
        None => None,
    }
}

/// A relative path as a directory listing writes it: at least one piece, and
/// none of them empty or `.`.
pub open spec fn clean(s: Seq<char>) -> bool
    decreases s.len(),
{
    &&& s.len() > 0
    &&& !trivial(head(s))
    &&& span_before(s, SEPARATOR) < s.len() ==> {
        proof {
            lemma_span_before(s, SEPARATOR);
        }
        clean(tail(s))
    }
}

/// Text behind the first separator does not change the first piece.
proof fn lemma_head_of_sum(a: Seq<char>, b: Seq<char>)
    requires
        span_before(a, SEPARATOR) < a.len() || (b.len() > 0 && b[0] == SEPARATOR),
    ensures
        span_before(a + b, SEPARATOR) == span_before(a, SEPARATOR),
        head(a + b) == head(a),
        span_before(a, SEPARATOR) < a.len() ==> tail(a + b) == tail(a) + b,
        span_before(a, SEPARATOR) == a.len() ==> tail(a + b) == b.skip(1),
{
    lemma_span_before(a, SEPARATOR);
    let n = span_before(a, SEPARATOR) as int;
    assert(n < a.len() ==> (a + b)[n] == a[n]);
    assert(n == a.len() && b.len() > 0 ==> (a + b)[n] == b[0]);
    assert forall|i: int| 0 <= i < n implies (a + b)[i] != SEPARATOR by {
        assert((a + b)[i] == a[i]);
    }
    lemma_span_before_unique(a + b, SEPARATOR, n);
    assert(head(a + b) == head(a));
    if n < a.len() {
        assert(tail(a + b) == tail(a) + b);
    } else {
        assert(tail(a + b) == b.skip(1));
    }
}

/// A separator ends a piece.
proof fn lemma_body_concat(a: Seq<char>, b: Seq<char>)
    ensures
        body(a.push(SEPARATOR) + b) == body(a) + body(b),
    decreases a.len(),
{
    lemma_span_before(a, SEPARATOR);
    let s = a.push(SEPARATOR) + b;
    let rest = seq![SEPARATOR] + b;
    assert(s == a + rest);
    lemma_head_of_sum(a, rest);
    if span_before(a, SEPARATOR) == a.len() {
        assert(rest.skip(1) == b);
        assert(head(a) == a);
        assert(tail(a) == Seq::<char>::empty());
        assert(body(tail(a)) == Seq::<Seq<char>>::empty());
    } else {
        assert(tail(a) + rest == tail(a).push(SEPARATOR) + b);
        lemma_body_concat(tail(a), b);
    }
    assert(body(s) == body(a) + body(b));
}

/// A text with no separator is one piece.
proof fn lemma_body_of_piece(p: Seq<char>)
    requires
        span_before(p, SEPARATOR) == p.len(),
    ensures
        head(p) == p,
        body(p) == if trivial(p) {
            Seq::<Seq<char>>::empty()
        } else {
            seq![p]
        },
{
    assert(head(p) == p);
    assert(tail(p) == Seq::<char>::empty());
    assert(body(tail(p)) == Seq::<Seq<char>>::empty());
}

/// What is in front of the last piece, and the last piece.
proof fn lemma_last_piece(s: Seq<char>)
    ensures
        span_before(last_piece(s), SEPARATOR) == last_piece(s).len(),
        span_after(s) < s.len() ==> s == init(s).push(SEPARATOR) + last_piece(s),
        span_after(s) == s.len() ==> last_piece(s) == s && span_before(s, SEPARATOR) == s.len(),
{
    lemma_span_after(s);
    let p = last_piece(s);
    assert forall|i: int| 0 <= i < p.len() implies p[i] != SEPARATOR by {
        assert(p[i] == s[s.len() - span_after(s) + i]);
    }
    lemma_span_before_unique(p, SEPARATOR, p.len() as int);
    if span_after(s) < s.len() {
        assert(s == init(s).push(SEPARATOR) + p);
    } else {
        assert(p == s);
    }
}

/// Trimming takes no component away at the front.
proof fn lemma_trim_start(s: Seq<char>)
    ensures
        body(trim_start(s)) == body(s),
        trim_start(s).len() > 0 ==> !trivial(head(trim_start(s))),
        trim_start(s).len() == 0 <==> body(s).len() == 0,
    decreases s.len(),
{
    lemma_span_before(s, SEPARATOR);
    if s.len() > 0 && trivial(head(s)) {
        lemma_trim_start(tail(s));
    }
}

/// Trimming takes no component away at the end.
proof fn lemma_trim_end(s: Seq<char>)
    ensures
        body(trim_end(s)) == body(s),
        trim_end(s).len() > 0 ==> !trivial(last_piece(trim_end(s))),
        trim_end(s).len() == 0 <==> body(s).len() == 0,
    decreases s.len(),
{
    lemma_span_after(s);
    lemma_last_piece(s);
    let p = last_piece(s);
    lemma_body_of_piece(p);
    if s.len() > 0 {
        if span_after(s) < s.len() {
            lemma_body_concat(init(s), p);
            assert(body(s) == body(init(s)) + body(p));
        } else {
            assert(init(s) == Seq::<char>::empty());
        }
        if trivial(p) {
            lemma_trim_end(init(s));
            assert(body(s) == body(init(s)));
        } else {
            assert(body(p).len() == 1);
            assert(body(s).len() > 0);
        }
    }
}

/// Trimming the end leaves a first piece that names something where it is.
proof fn lemma_trim_end_head(s: Seq<char>)
    requires
        s.len() > 0,
        !trivial(head(s)),
    ensures
        trim_end(s).len() > 0,
        head(trim_end(s)) == head(s),
    decreases s.len(),
{
    lemma_span_after(s);
    lemma_last_piece(s);
    lemma_span_before(s, SEPARATOR);
    if trivial(last_piece(s)) {
        if span_after(s) == s.len() {
            assert(head(s) == s);
        } else {
            let front = init(s);
            let rest = seq![SEPARATOR] + last_piece(s);
            assert(s == front + rest);
            lemma_head_of_sum(front, rest);
            lemma_trim_end_head(front);
        }
    }
}

/// Trimming the start of what was trimmed at its end changes nothing, where
/// the start had been trimmed before.
proof fn lemma_trimmed(s: Seq<char>)
    ensures
        ({
            let r = trim_end(trim_start(s));
            &&& body(r) == body(s)
            &&& r.len() > 0 ==> !trivial(head(r))
            &&& lead_len(r) == 0
            &&& components(r) == body(s)
        }),
{
    let t = trim_start(s);
    let r = trim_end(t);
    lemma_trim_start(s);
    lemma_trim_end(t);
    if t.len() > 0 {
        lemma_trim_end_head(t);
    }
    if r.len() > 0 {
        lemma_span_before(r, SEPARATOR);
        assert(head(r).len() > 0);
        assert(head(r)[0] == r[0]);
    }
}

/// What stripping gives, by components.
proof fn lemma_strip_body(s: Seq<char>, base: Seq<Seq<char>>)
    ensures
        strip_body(s, base) is Some <==> base.is_prefix_of(body(s)),
        strip_body(s, base) matches Some(r) ==> body(s) == base + body(r),
    decreases base.len(),
{
    let t = trim_start(s);
    lemma_trim_start(s);
    if base.len() == 0 {
        assert(base + body(s) == body(s));
        assert(base.is_prefix_of(body(s)));
    } else if t.len() == 0 {
        assert(!base.is_prefix_of(body(s)));
    } else {
        assert(body(s) == seq![head(t)] + body(tail(t)));
        let rest = base.skip(1);
        lemma_strip_body(tail(t), rest);
        assert(base == seq![base[0]] + rest);
        if head(t) == base[0] {
            if rest.is_prefix_of(body(tail(t))) {
                assert(body(s).subrange(0, base.len() as int) == base) by {
                    assert(body(tail(t)).subrange(0, rest.len() as int) == rest);
                    assert forall|i: int| 0 <= i < base.len() implies body(s)[i] == base[i] by {
                        if i > 0 {
                            assert(rest[i - 1] == body(tail(t)).subrange(0, rest.len() as int)[i - 1]);
                        }
                    }
                }
            }
            if base.is_prefix_of(body(s)) {
                assert(body(tail(t)).subrange(0, rest.len() as int) == rest) by {
                    assert forall|i: int| 0 <= i < rest.len() implies body(tail(t))[i] == rest[i] by {
                        assert(base[i + 1] == body(s).subrange(0, base.len() as int)[i + 1]);
                    }
                }
            }
            if let Some(r) = strip_body(s, base) {
                assert(body(s) == base + body(r));
            }
        } else if base.is_prefix_of(body(s)) {
            assert(base[0] == body(s).subrange(0, base.len() as int)[0]);
        }
    }
}

/// The first character of a path and the rest of it decide its components.
proof fn lemma_lead(s: Seq<char>)
    ensures
        rooted(s) ==> s.take(1) == seq![SEPARATOR] && !dotted(s),
        dotted(s) ==> s.take(1) == seq!['.'] && s[0] == '.' && (s.len() == 1 || s[1] == SEPARATOR),
        lead_len(s) == 0 && s.len() > 0 ==> !trivial(head(s)),
        lead_len(s) <= s.len(),
        components(s).len() == 0 <==> s.len() == 0,
        forall|i: int|
            0 <= i < body(s).len() ==> #[trigger] body(s)[i] != seq![SEPARATOR] && !trivial(body(s)[i]),
{
    lemma_span_before(s, SEPARATOR);
    lemma_body_pieces(s);
    if s.len() > 0 {
        if rooted(s) {
            assert(head(s).len() == 0);
            assert(s.take(1) == seq![SEPARATOR]);
        } else {
            assert(head(s)[0] == s[0]);
        }
        if dotted(s) {
            assert(head(s).len() == 1);
            assert(head(s)[0] == '.');
            assert(s.take(1) == seq!['.']);
        }
    }
}

/// No component of a body is trivial or the root.
proof fn lemma_body_pieces(s: Seq<char>)
    ensures
        forall|i: int|
            0 <= i < body(s).len() ==> #[trigger] body(s)[i] != seq![SEPARATOR] && !trivial(body(s)[i]),
    decreases s.len(),
{
    if s.len() > 0 {
        lemma_span_before(s, SEPARATOR);
        lemma_body_pieces(tail(s));
        if !trivial(head(s)) {
            assert(head(s)[0] != SEPARATOR);
            assert(head(s) != seq![SEPARATOR]) by {
                assert(seq![SEPARATOR][0] == SEPARATOR);
            }
            assert forall|i: int| 0 <= i < body(s).len() implies #[trigger] body(s)[i] != seq![
                SEPARATOR,
            ] && !trivial(body(s)[i]) by {
                if i > 0 {
                    assert(body(s)[i] == body(tail(s))[i - 1]);
                } else {
                    assert(body(s)[i] == head(s));
                }
            }
        } else {
            assert(body(s) == body(tail(s)));
        }
    }
}

/// A path has a path below a directory exactly where the components of the
/// directory come first among its own, and the two together are the whole.
pub proof fn law_strip_prefix(s: Seq<char>, base: Seq<char>)
    ensures
        strip_prefix_of(s, base) is Some <==> components(base).is_prefix_of(components(s)),
        strip_prefix_of(s, base) matches Some(rel) ==> components(s) == components(base) + components(rel),
{
    let want = components(base);
    let have = components(s);
    let lead = lead_len(s);
    lemma_lead(s);
    lemma_lead(base);
    if want.len() == 0 {
        let rel = s.take(lead) + trim_end(s.skip(lead));
        assert(want.is_prefix_of(have));
        lemma_components_trimmed(s);
        assert(have == want + components(rel));
    } else if lead == 1 {
        let rest = s.skip(1);
        let more = want.skip(1);
        assert(want == seq![want[0]] + more);
        lemma_strip_body(rest, more);
        if want[0] == s.take(1) {
            if more.is_prefix_of(body(rest)) {
                assert forall|i: int| 0 <= i < want.len() implies have[i] == want[i] by {
                    if i > 0 {
                        assert(more[i - 1] == body(rest).subrange(0, more.len() as int)[i - 1]);
                    }
                }
                assert(want =~= have.subrange(0, want.len() as int));
            }
            if want.is_prefix_of(have) {
                assert forall|i: int| 0 <= i < more.len() implies body(rest)[i] == more[i] by {
                    assert(want[i + 1] == have.subrange(0, want.len() as int)[i + 1]);
                }
                assert(more =~= body(rest).subrange(0, more.len() as int));
            }
            if let Some(r) = strip_body(rest, more) {
                lemma_trimmed(r);
                assert(have == want + components(trim_end(trim_start(r))));
            }
        } else if want.is_prefix_of(have) {
            assert(want[0] == have.subrange(0, want.len() as int)[0]);
        }
    } else {
        lemma_strip_body(s, want);
        if let Some(r) = strip_body(s, want) {
            lemma_trimmed(r);
        }
    }
}

/// A path without its trivial last pieces has the same components.
proof fn lemma_components_trimmed(s: Seq<char>)
    ensures
        components(s.take(lead_len(s)) + trim_end(s.skip(lead_len(s)))) == components(s),
{
    let lead = lead_len(s);
    let rest = s.skip(lead);
    let r = s.take(lead) + trim_end(rest);
    lemma_lead(s);
    lemma_trim_end(rest);
    if lead == 1 {
        assert(r.skip(1) == trim_end(rest));
        assert(r.take(1) == s.take(1));
        assert(r[0] == s[0]);
        if dotted(s) {
            lemma_trim_end_start(rest);
            lemma_dotted(r);
        }
    } else if s.len() > 0 {
        assert(rest == s);
        assert(r == trim_end(s));
        lemma_trim_end_head(s);
        lemma_span_before(r, SEPARATOR);
        assert(head(r)[0] == r[0]);
    } else {
        assert(r == s);
    }
}

/// `.` before a separator, or alone, is the first piece.
proof fn lemma_dotted(s: Seq<char>)
    requires
        s.len() > 0,
        s[0] == '.',
        s.len() > 1 ==> s[1] == SEPARATOR,
    ensures
        dotted(s),
        lead_len(s) == 1,
{
    lemma_span_before_unique(s, SEPARATOR, 1);
    assert(head(s) == seq!['.']);
}

/// Trimming the end leaves the first character where it is.
proof fn lemma_trim_end_start(s: Seq<char>)
    ensures
        trim_end(s).len() > 0 ==> s.len() > 0 && trim_end(s)[0] == s[0],
    decreases s.len(),
{
    lemma_span_after(s);
    if s.len() > 0 && trivial(last_piece(s)) {
        lemma_trim_end_start(init(s));
    }
}

/// Joining puts the components of a relative path behind those of the
/// directory.
pub proof fn law_join(base: Seq<char>, rel: Seq<char>)
    requires
        lead_len(rel) == 0,
    ensures
        components(join_of(base, rel)) == components(base) + components(rel),
{
    let s = join_of(base, rel);
    lemma_lead(base);
    lemma_lead(rel);
    if base.len() == 0 {
        assert(s == rel);
        assert(components(s) == components(base) + components(rel));
    } else if lead_len(base) == 1 {
        let x = base.skip(1);
        assert(s.take(1) == base.take(1));
        assert(s[0] == base[0]);
        if base.last() == SEPARATOR {
            assert(s.skip(1) == x + rel);
            lemma_body_glued(x, rel);
        } else {
            assert(s.skip(1) == x.push(SEPARATOR) + rel);
            lemma_body_concat(x, rel);
        }
        if dotted(base) {
            assert(base.len() > 1 ==> s[1] == base[1]);
            lemma_dotted(s);
        }
        assert(components(s) == components(base) + components(rel));
    } else {
        lemma_span_before(base, SEPARATOR);
        if base.last() == SEPARATOR {
            lemma_body_glued(base, rel);
            assert(span_before(base, SEPARATOR) < base.len());
            lemma_head_of_sum(base, rel);
        } else {
            lemma_body_concat(base, rel);
            assert(s == base + (seq![SEPARATOR] + rel));
            lemma_head_of_sum(base, seq![SEPARATOR] + rel);
        }
        assert(head(s) == head(base));
        assert(s[0] == base[0]);
        assert(lead_len(s) == 0);
    }
}

/// A text that ends in a separator, or an empty one, takes another behind it.
proof fn lemma_body_glued(x: Seq<char>, rel: Seq<char>)
    requires
        x.len() == 0 || x.last() == SEPARATOR,
    ensures
        body(x + rel) == body(x) + body(rel),
{
    if x.len() == 0 {
        assert(x + rel == rel);
        assert(body(x) + body(rel) == body(rel));
    } else {
        let y = x.drop_last();
        assert(x == y.push(SEPARATOR));
        lemma_body_concat(y, rel);
        lemma_body_concat(y, Seq::<char>::empty());
        assert(y.push(SEPARATOR) + Seq::<char>::empty() == x);
        assert(body(Seq::<char>::empty()) == Seq::<Seq<char>>::empty());
        assert(body(x) == body(y));
    }
}

/// A path keeps its place below the directory it is moved to.
pub proof fn law_moved(s: Seq<char>, from: Seq<char>, to: Seq<char>)
    requires
        from.len() > 0,
    ensures
        moved(s, from, to) is Some <==> components(from).is_prefix_of(components(s)),
        moved(s, from, to) matches Some(t) ==> components(t) == components(to) + components(s).skip(
            components(from).len() as int,
        ),
{
    law_strip_prefix(s, from);
    lemma_lead(from);
    if let Some(rel) = strip_prefix_of(s, from) {
        lemma_stripped_is_relative(s, from);
        law_join(to, rel);
        assert(components(s).skip(components(from).len() as int) == components(rel));
    }
}

/// What is left of a path below a directory is relative.
proof fn lemma_stripped_is_relative(s: Seq<char>, base: Seq<char>)
    requires
        base.len() > 0,
    ensures
        strip_prefix_of(s, base) matches Some(rel) ==> lead_len(rel) == 0,
{
    lemma_lead(base);
    let want = components(base);
    if lead_len(s) == 1 {
        if let Some(r) = strip_body(s.skip(1), want.skip(1)) {
            lemma_trimmed(r);
        }
    } else {
        if let Some(r) = strip_body(s, want) {
            lemma_trimmed(r);
        }
    }
}

/// Moving a path there and back names the same file again.
pub proof fn law_moved_back(s: Seq<char>, from: Seq<char>, to: Seq<char>)
    requires
        from.len() > 0,
        to.len() > 0,
        moved(s, from, to) is Some,
    ensures
        moved(moved(s, from, to)->0, to, from) matches Some(u) && components(u) == components(s),
{
    let t = moved(s, from, to)->0;
    law_moved(s, from, to);
    law_moved(t, to, from);
    let rest = components(s).skip(components(from).len() as int);
    assert(components(to) =~= components(t).subrange(0, components(to).len() as int));
    assert(components(t).skip(components(to).len() as int) == rest);
    assert(components(from) + rest == components(s)) by {
        assert(components(s).subrange(0, components(from).len() as int) == components(from));
    }
}

/// A clean path neither starts nor ends with anything to trim.
proof fn lemma_clean(rel: Seq<char>)
    requires
        clean(rel),
    ensures
        rel.len() > 0,
        lead_len(rel) == 0,
        trim_start(rel) == rel,
        trim_end(rel) == rel,
        !trivial(last_piece(rel)),
    decreases rel.len(),
{
    lemma_span_before(rel, SEPARATOR);
    assert(head(rel)[0] == rel[0]);
    lemma_last_piece(rel);
    lemma_span_after(rel);
    if span_before(rel, SEPARATOR) < rel.len() {
        let more = tail(rel);
        lemma_clean(more);
        lemma_span_after(more);
        let n = span_before(rel, SEPARATOR) as int;
        assert forall|i: int| rel.len() - span_after(more) <= i < rel.len() implies rel[i]
            != SEPARATOR by {
            assert(rel[i] == more[i - n - 1]);
        }
        assert(span_after(more) < more.len() ==> rel[rel.len() - span_after(more) - 1] == more[more.len() - span_after(more) - 1]);
        assert(span_after(rel) == span_after(more));
        assert(last_piece(rel) == last_piece(more));
    } else {
        assert(head(rel) == rel);
        assert(span_after(rel) == rel.len());
    }
}

/// Behind the components of `x`, what follows `x` is left.
proof fn lemma_strip_clean(x: Seq<char>, rel: Seq<char>)
    requires
        clean(rel),
    ensures
        strip_body(x.push(SEPARATOR) + rel, body(x)) matches Some(y) && trim_start(y) == rel,
    decreases x.len(),
{
    let s = x.push(SEPARATOR) + rel;
    let rest = seq![SEPARATOR] + rel;
    assert(s == x + rest);
    lemma_clean(rel);
    lemma_span_before(x, SEPARATOR);
    lemma_head_of_sum(x, rest);
    if span_before(x, SEPARATOR) == x.len() {
        lemma_body_of_piece(x);
        assert(rest.skip(1) == rel);
        assert(tail(s) == rel);
        if !trivial(x) {
            assert(trim_start(s) == s);
            assert(body(x).skip(1) == Seq::<Seq<char>>::empty());
            assert(strip_body(rel, body(x).skip(1)) == Some(rel));
        }
    } else {
        let more = tail(x);
        assert(more + rest == more.push(SEPARATOR) + rel);
        assert(tail(s) == more.push(SEPARATOR) + rel);
        lemma_strip_clean(more, rel);
        if trivial(head(x)) {
            assert(trim_start(s) == trim_start(tail(s)));
            assert(body(x) == body(more));
        } else {
            assert(trim_start(s) == s);
            assert(body(x)[0] == head(x));
            assert(body(x).skip(1) == body(more));
        }
    }
}

/// The file that a listing of `from` shows as `rel` below it lands exactly
/// where a listing of `to` would show it.
pub proof fn law_listed_path_moves(rel: Seq<char>, from: Seq<char>, to: Seq<char>)
    requires
        clean(rel),
    ensures
        strip_prefix_of(join_of(from, rel), from) == Some(rel),
        moved(join_of(from, rel), from, to) == Some(join_of(to, rel)),
{
    let s = join_of(from, rel);
    lemma_clean(rel);
    lemma_lead(from);
    lemma_lead(rel);
    if from.len() == 0 {
        assert(s == rel);
        assert(rel.skip(0) == rel);
        assert(rel.take(0) + trim_end(rel.skip(0)) == rel);
    } else {
        let lead = lead_len(from);
        law_join(from, rel);
        lemma_lead(s);
        let x = from.skip(lead);
        let want = components(from);
        if lead == 1 {
            assert(want[0] == from.take(1));
            assert(want.skip(1) == body(x));
            assert(s.take(1) == from.take(1));
            assert(s[0] == from[0]);
            if dotted(from) {
                assert(from.len() > 1 ==> s[1] == from[1]);
                lemma_dotted(s);
            }
        } else {
            assert(x == from);
            lemma_span_before(from, SEPARATOR);
            if from.last() == SEPARATOR {
                lemma_head_of_sum(from, rel);
            } else {
                assert(s == from + (seq![SEPARATOR] + rel));
                lemma_head_of_sum(from, seq![SEPARATOR] + rel);
            }
            assert(head(s) == head(from));
            assert(s[0] == from[0]);
            assert(s.skip(0) == s);
        }
        assert(lead_len(s) == lead);
        if from.last() == SEPARATOR {
            assert(s.skip(lead) == x + rel);
            if x.len() == 0 {
                assert(x + rel == rel);
            } else {
                let y = x.drop_last();
                assert(x == y.push(SEPARATOR));
                lemma_strip_clean(y, rel);
                lemma_body_glued(x, Seq::<char>::empty());
                lemma_body_concat(y, Seq::<char>::empty());
                assert(y.push(SEPARATOR) + Seq::<char>::empty() == x);
                assert(body(Seq::<char>::empty()) == Seq::<Seq<char>>::empty());
                assert(body(x) == body(y));
            }
        } else {
            assert(s.skip(lead) == x.push(SEPARATOR) + rel);
            lemma_strip_clean(x, rel);
        }
    }
}

/// The parent of a path has its components without the last, and is shorter.
pub proof fn law_parent(s: Seq<char>)
    ensures
        parent_of(s) is Some <==> components(s).len() > 0 && components(s) != seq![seq![SEPARATOR]],
        parent_of(s) matches Some(dir) ==> dir.len() < s.len() && components(dir) == components(s).drop_last(),
{
    let lead = lead_len(s);
    let rest = trim_end(s.skip(lead));
    lemma_lead(s);
    lemma_trim_end(s.skip(lead));
    lemma_trim_end_len(s.skip(lead));
    if rest.len() > 0 {
        let p = last_piece(rest);
        let front = init(rest);
        lemma_last_piece(rest);
        lemma_span_after(rest);
        lemma_body_of_piece(p);
        if span_after(rest) < rest.len() {
            lemma_body_concat(front, p);
        } else {
            assert(body(front) == Seq::<Seq<char>>::empty());
            assert(rest == p);
        }
        assert(body(rest) == body(front).push(p));
        lemma_trim_end(front);
        lemma_trim_end_len(front);
        let dir = s.take(lead) + trim_end(front);
        if lead == 1 {
            assert(components(s) == seq![s.take(1)] + body(front).push(p));
            assert(components(s).drop_last() == seq![s.take(1)] + body(front));
            assert(dir.skip(1) == trim_end(front));
            assert(dir.take(1) == s.take(1));
            assert(dir[0] == s[0]);
            if dotted(s) {
                lemma_trim_end_start(s.skip(1));
                lemma_trim_end_start(front);
                assert(front.len() > 0 ==> front[0] == rest[0]);
                lemma_dotted(dir);
            }
            assert(components(s) != seq![seq![SEPARATOR]]) by {
                assert(components(s).len() > 1);
            }
        } else {
            assert(s.skip(0) == s);
            assert(components(s) == body(front).push(p));
            assert(components(s).drop_last() == body(front));
            assert(dir == trim_end(front));
            lemma_trim_end_head(s);
            if span_after(rest) < rest.len() {
                lemma_head_of_sum(front, seq![SEPARATOR] + p);
                assert(rest == front + (seq![SEPARATOR] + p));
                if front.len() > 0 {
                    lemma_trim_end_head(front);
                    lemma_span_before(dir, SEPARATOR);
                    assert(head(dir)[0] == dir[0]);
                }
            }
            assert(lead_len(dir) == 0);
            assert(components(s)[0] != seq![SEPARATOR]);
        }
    } else {
        assert(body(s.skip(lead)) == Seq::<Seq<char>>::empty());
        if lead == 1 {
            assert(components(s) == seq![s.take(1)]);
            assert(components(s).drop_last() == Seq::<Seq<char>>::empty());
            if dotted(s) {
                assert(seq!['.'][0] != seq![SEPARATOR][0]);
                assert(components(s)[0] != seq![SEPARATOR]);
            }
        } else {
            assert(s.skip(0) == s);
        }
    }
}

/// The components of a path are its pieces between separators, in their
/// order, without empty ones and without `.`; but a separator or a `.` that a
/// path starts with is a component too.
pub proof fn law_components(s: Seq<char>, p: Seq<char>)
    requires
        !p.contains('/'),
    ensures
        components(seq![]) == Seq::<Seq<char>>::empty(),
        p.len() > 0 ==> components(p) == seq![p],
        components(seq!['/'] + p) == if p.len() == 0 || p == seq!['.'] {
            seq![seq!['/']]
        } else {
            seq![seq!['/'], p]
        },
        s.len() > 0 ==> components(s + seq!['/'] + p) == if p.len() == 0 || p == seq!['.'] {
            components(s)
        } else {
            components(s).push(p)
        },
{
    lemma_no_separator(p);
    lemma_body_of_piece(p);
    lemma_span_before(p, SEPARATOR);
    assert(p.len() > 0 ==> p.contains(p[0]));
    assert(components(Seq::<char>::empty()) == Seq::<Seq<char>>::empty());
    if p == seq!['.'] {
        assert(p.take(1) == p);
        assert(p.skip(1) == Seq::<char>::empty());
        assert(body(p.skip(1)) == Seq::<Seq<char>>::empty());
        assert(components(p) == seq![p]);
    }
    let r = seq!['/'] + p;
    assert(r.take(1) == seq!['/']);
    assert(r.skip(1) == p);
    assert(components(r) == seq![seq!['/']] + body(p));
    if s.len() > 0 {
        let rest = seq!['/'] + p;
        let t = s + seq!['/'] + p;
        assert(t == s + rest);
        lemma_lead(s);
        lemma_head_of_sum(s, rest);
        assert(t[0] == s[0]);
        if lead_len(s) == 1 {
            let x = s.skip(1);
            assert(t.skip(1) == x.push(SEPARATOR) + p);
            lemma_body_concat(x, p);
            assert(t.take(1) == s.take(1));
            if dotted(s) {
                assert(s.len() > 1 ==> t[1] == s[1]);
                assert(s.len() == 1 ==> t[1] == '/');
                lemma_dotted(t);
            }
            assert(components(t) == components(s) + body(p));
        } else {
            assert(t == s.push(SEPARATOR) + p);
            lemma_body_concat(s, p);
            lemma_span_before(s, SEPARATOR);
            assert(components(t) == components(s) + body(p));
        }
        if trivial(p) {
            assert(components(s) + body(p) == components(s));
        } else {
            assert(components(s) + body(p) == components(s).push(p));
        }
    }
}

/// A text that holds no separator is before its first one.
proof fn lemma_no_separator(p: Seq<char>)
    requires
        !p.contains('/'),
    ensures
        span_before(p, SEPARATOR) == p.len(),
{
    assert forall|i: int| 0 <= i < p.len() implies p[i] != SEPARATOR by {
        assert(p.contains(p[i]));
    }
    lemma_span_before_unique(p, SEPARATOR, p.len() as int);
}

/// The file name of a path is its last component, where that is a name.
pub proof fn law_file_name(s: Seq<char>)
    ensures
        file_name_of(s) is Some <==> {
            &&& components(s).len() > 0
            &&& components(s).last() != seq!['/']
            &&& components(s).last() != seq!['.']
            &&& components(s).last() != seq!['.', '.']
        },
        file_name_of(s) matches Some(name) ==> name == components(s).last(),
{
    let lead = lead_len(s);
    let rest = trim_end(s.skip(lead));
    lemma_lead(s);
    lemma_trim_end(s.skip(lead));
    if lead == 0 {
        assert(s.skip(0) == s);
    }
    if rest.len() > 0 {
        let p = last_piece(rest);
        let front = init(rest);
        lemma_last_piece(rest);
        lemma_span_after(rest);
        lemma_body_of_piece(p);
        if span_after(rest) < rest.len() {
            lemma_body_concat(front, p);
        } else {
            assert(body(front) == Seq::<Seq<char>>::empty());
            assert(rest == p);
        }
        assert(body(rest) == body(front).push(p));
        assert(components(s).last() == p);
        assert(p.len() > 0);
        lemma_span_before(p, SEPARATOR);
        assert(p[0] != SEPARATOR);
        assert(seq!['/'][0] == '/');
    } else {
        assert(body(s.skip(lead)) == Seq::<Seq<char>>::empty());
        if lead == 1 {
            assert(components(s) == seq![s.take(1)]);
        }
    }
}

/// The parent of a name in a directory is the directory, as it was written:
/// where it is the root, or ends in a name.
pub proof fn law_parent_of_joined(dir: Seq<char>, name: Seq<char>)
    requires
        !name.contains('/'),
        name.len() > 0,
        name != seq!['.'],
        dir == seq!['/'] || (dir.len() > 0 && !trivial(last_piece(dir))),
    ensures
        parent_of(join_of(dir, name)) == Some(dir),
{
    lemma_no_separator(name);
    lemma_body_of_piece(name);
    lemma_span_before(name, SEPARATOR);
    assert(name.contains(name[0]));
    lemma_last_piece(dir);
    lemma_span_after(dir);
    let s = join_of(dir, name);
    lemma_lead(dir);
    if dir == seq!['/'] {
        assert(s.skip(1) == name);
        lemma_piece_is_last(Seq::empty(), name);
        lemma_piece_alone(name);
        assert(init(name) == Seq::<char>::empty());
        assert(trim_end(Seq::<char>::empty()) == Seq::<char>::empty());
        assert(s.take(1) + Seq::<char>::empty() == dir);
    } else {
        assert(dir.last() != SEPARATOR) by {
            if dir.last() == SEPARATOR {
                assert(span_after(dir) == 0);
            }
        }
        assert(s == dir.push(SEPARATOR) + name);
        let rest = seq![SEPARATOR] + name;
        assert(s == dir + rest);
        lemma_head_of_sum(dir, rest);
        assert(s[0] == dir[0]);
        let lead = lead_len(dir);
        if lead == 1 {
            if dotted(dir) {
                assert(dir.len() > 1 ==> s[1] == dir[1]);
                lemma_dotted(s);
                if dir.len() == 1 {
                    assert(dir == seq!['.']);
                    assert(dir[0] != SEPARATOR);
                    lemma_span_before(dir, SEPARATOR);
                    assert(span_after(dir) == 1) by {
                        reveal_with_fuel(span_after, 2);
                    }
                    assert(last_piece(dir) == dir);
                }
            } else if dir.len() == 1 {
                assert(dir == seq!['/']);
            }
        } else {
            lemma_span_before(dir, SEPARATOR);
        }
        assert(lead_len(s) == lead);
        let x = dir.skip(lead);
        assert(s.skip(lead) == x.push(SEPARATOR) + name);
        lemma_piece_is_last(x, name);
        lemma_skip_last_piece(dir, lead);
        assert(init(s.skip(lead)) == x);
        assert(trim_end(s.skip(lead)) == s.skip(lead));
        assert(trim_end(x) == x);
        assert(s.take(lead) + x == dir);
    }
}

/// A text without a separator is its own last piece.
proof fn lemma_piece_alone(p: Seq<char>)
    requires
        span_before(p, SEPARATOR) == p.len(),
    ensures
        span_after(p) == p.len(),
        last_piece(p) == p,
{
    lemma_span_before(p, SEPARATOR);
    lemma_span_after(p);
    let n = span_after(p) as int;
    if n < p.len() {
        assert(p[p.len() - n - 1] == SEPARATOR);
    }
    assert(last_piece(p) == p);
}

/// What stands behind the last separator is the last piece.
proof fn lemma_piece_is_last(x: Seq<char>, p: Seq<char>)
    requires
        span_before(p, SEPARATOR) == p.len(),
    ensures
        last_piece(x.push(SEPARATOR) + p) == p,
        init(x.push(SEPARATOR) + p) == x,
{
    let s = x.push(SEPARATOR) + p;
    lemma_span_before(p, SEPARATOR);
    lemma_span_after(s);
    let n = span_after(s) as int;
    assert(s[x.len() as int] == SEPARATOR);
    if n < p.len() {
        assert(s[s.len() - n - 1] == SEPARATOR);
        assert(s[s.len() - n - 1] == p[p.len() - n - 1]);
    }
    assert(n == p.len());
    assert(last_piece(s) == p);
    assert(init(s) == x);
}

/// Without the root or the `.` at its start, a path has the same last piece.
proof fn lemma_skip_last_piece(dir: Seq<char>, lead: int)
    requires
        lead == lead_len(dir),
        dir.len() > lead,
        dir.last() != SEPARATOR,
        !trivial(last_piece(dir)),
    ensures
        trim_end(dir.skip(lead)) == dir.skip(lead),
{
    lemma_lead(dir);
    lemma_span_after(dir);
    let x = dir.skip(lead);
    lemma_span_after(x);
    if lead == 1 {
        let n = span_after(dir) as int;
        let m = span_after(x) as int;
        if rooted(dir) {
            assert(n < dir.len()) by {
                if n == dir.len() {
                    assert(dir[0] != SEPARATOR);
                }
            }
        } else {
            assert(dir[1] == SEPARATOR);
            assert(n < dir.len() - 1) by {
                if n >= dir.len() - 1 {
                    assert(dir[1] != SEPARATOR);
                }
            }
        }
        if m > n {
            assert(x[x.len() - n - 1] == dir[dir.len() - n - 1]);
        }
        if m < n {
            assert(x[x.len() - m - 1] == dir[dir.len() - m - 1]);
        }
        assert(m == n);
        assert(last_piece(x) == last_piece(dir));
    } else {
        assert(x == dir);
    }
}

/// Trimming the start leaves an end of the text.
proof fn lemma_trim_start_part(s: Seq<char>)
    ensures
        trim_start(s).len() <= s.len(),
        trim_start(s) == s.skip(s.len() - trim_start(s).len()),
    decreases s.len(),
{
    lemma_span_before(s, SEPARATOR);
    if s.len() > 0 && trivial(head(s)) {
        let t = tail(s);
        lemma_trim_start_part(t);
        assert(t == s.skip(s.len() - t.len()));
        assert(trim_start(s) == s.skip(s.len() - trim_start(s).len()));
    } else {
        assert(s.skip(0) == s);
    }
}

/// Trimming the end leaves a start of the text.
proof fn lemma_trim_end_part(s: Seq<char>)
    ensures
        trim_end(s).len() <= s.len(),
        trim_end(s) == s.take(trim_end(s).len() as int),
    decreases s.len(),
{
    lemma_span_after(s);
    if s.len() > 0 && trivial(last_piece(s)) {
        let t = init(s);
        lemma_trim_end_part(t);
        assert(t == s.take(t.len() as int));
        assert(trim_end(s) == s.take(trim_end(s).len() as int));
    } else {
        assert(s.take(s.len() as int) == s);
    }
}

/// What is left behind the components of a directory is an end of the text.
proof fn lemma_strip_body_part(s: Seq<char>, base: Seq<Seq<char>>)
    ensures
        strip_body(s, base) matches Some(r) ==> r.len() <= s.len() && r == s.skip(
            s.len() - r.len(),
        ),
    decreases base.len(),
{
    let t = trim_start(s);
    lemma_trim_start_part(s);
    lemma_span_before(t, SEPARATOR);
    if base.len() == 0 {
        assert(s.skip(0) == s);
    } else if t.len() > 0 && head(t) == base[0] {
        lemma_strip_body_part(tail(t), base.skip(1));
        if let Some(r) = strip_body(tail(t), base.skip(1)) {
            assert(tail(t) == s.skip(s.len() - tail(t).len()));
            assert(r == s.skip(s.len() - r.len()));
        }
    }
}

/// The path of a file below a directory stands in the path of the file as it
/// is.
pub proof fn law_strip_prefix_text(s: Seq<char>, base: Seq<char>)
    ensures
        strip_prefix_of(s, base) matches Some(rel) ==> exists|at: int|
            0 <= at && at + rel.len() <= s.len() && #[trigger] s.subrange(at, at + rel.len())
                == rel,
{
    let want = components(base);
    let lead = lead_len(s);
    lemma_lead(s);
    if let Some(rel) = strip_prefix_of(s, base) {
        if want.len() == 0 {
            lemma_trim_end_part(s.skip(lead));
            assert(s.subrange(0, 0int + rel.len()) == rel);
        } else {
            let (whole, more) = if lead == 1 {
                (s.skip(1), want.skip(1))
            } else {
                (s, want)
            };
            lemma_strip_body_part(whole, more);
            let r = strip_body(whole, more)->0;
            assert(r == s.skip(s.len() - r.len()));
            lemma_trim_start_part(r);
            let t = trim_start(r);
            lemma_trim_end_part(t);
            let at = s.len() - t.len();
            assert(s.subrange(at, at + rel.len()) == rel);
        }
    }
}

/// The parent of a path is a start of it, as it stands.
pub proof fn law_parent_text(s: Seq<char>)
    ensures
        parent_of(s) matches Some(dir) ==> dir.len() <= s.len() && dir == s.take(dir.len() as int),
{
    let lead = lead_len(s);
    lemma_lead(s);
    let rest = trim_end(s.skip(lead));
    lemma_trim_end_part(s.skip(lead));
    lemma_span_after(rest);
    lemma_trim_end_part(init(rest));
    if let Some(dir) = parent_of(s) {
        assert(dir =~= s.take(dir.len() as int));
    }
}

/// A relative path is put behind the directory as both stand, with one
/// separator between them; a path from the root is put in its place.
pub proof fn law_join_text(base: Seq<char>, rel: Seq<char>)
    ensures
        rel.len() > 0 && rel[0] == '/' ==> join_of(base, rel) == rel,
        (rel.len() == 0 || rel[0] != '/') && base.len() > 0 ==> {
            &&& base.is_prefix_of(join_of(base, rel))
            &&& rel.is_suffix_of(join_of(base, rel))
            &&& join_of(base, rel)[join_of(base, rel).len() - rel.len() - 1] == '/'
            &&& join_of(base, rel).len() == base.len() + rel.len() + if base.last() == '/' {
                0int
            } else {
                1int
            }
        },
        (rel.len() == 0 || rel[0] != '/') && base.len() == 0 ==> join_of(base, rel) == rel,
{
    let s = join_of(base, rel);
    if (rel.len() == 0 || rel[0] != '/') && base.len() > 0 {
        assert(base =~= s.subrange(0, base.len() as int));
        assert(rel =~= s.subrange((s.len() - rel.len()) as int, s.len() as int));
    }
}

/// Trimming makes nothing longer.
proof fn lemma_trim_end_len(s: Seq<char>)
    ensures
        trim_end(s).len() <= s.len(),
    decreases s.len(),
{
    lemma_span_after(s);
    if s.len() > 0 && trivial(last_piece(s)) {
        lemma_trim_end_len(init(s));
    }
}

} // verus!
