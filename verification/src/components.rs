//! File-system paths as byte strings, read component by component.

use vstd::prelude::*;

verus! {

/// The byte `/`.
pub const SLASH: u8 = 47;

/// The byte `.`.
pub const DOT: u8 = 46;

/// Where the piece that starts at `i` ends: at the next slash, or at the end of `s`.
pub open spec fn piece_end(s: Seq<u8>, i: int) -> int
    decreases s.len() - i,
{
    if i >= s.len() {
        s.len() as int
    } else if s[i] == SLASH {
        i
    } else {
        piece_end(s, i + 1)
    }
}

/// Whether the piece `s[i..j]` counts as a component. Empty pieces do not, and a
/// `.` counts only at the very start of the path.
pub open spec fn is_component(s: Seq<u8>, i: int, j: int) -> bool {
    i < j && !(i > 0 && j == i + 1 && s[i] == DOT)
}

/// The spans of the components among the pieces of `s` from position `i` on.
pub open spec fn spans_from(s: Seq<u8>, i: int) -> Seq<(int, int)>
    decreases s.len() + 1 - i,
{
    if i < 0 || i >= s.len() {
        Seq::empty()
    } else {
        proof {
            lemma_piece_end(s, i);
        }
        let j = piece_end(s, i);
        if is_component(s, i, j) {
            seq![(i, j)] + spans_from(s, j + 1)
        } else {
            spans_from(s, j + 1)
        }
    }
}

/// The spans of all components of `s`; the root of an absolute path is the span
/// of its leading slash.
pub open spec fn spans(s: Seq<u8>) -> Seq<(int, int)> {
    if is_absolute(s) {
        seq![(0int, 1int)] + spans_from(s, 1)
    } else {
        spans_from(s, 0)
    }
}

/// Whether `s` starts at the root.
pub open spec fn is_absolute(s: Seq<u8>) -> bool {
    s.len() > 0 && s[0] == SLASH
}

/// The components of the path `s`: the root as `/`, then the names in order.
/// Repeated and trailing slashes leave no trace, nor does a `.` that does not
/// start the path.
pub open spec fn components(s: Seq<u8>) -> Seq<Seq<u8>> {
    spans(s).map_values(|p: (int, int)| s.subrange(p.0, p.1))
}

/// A piece is free of slashes, and a slash or the end of the path follows it.
pub proof fn lemma_piece_end(s: Seq<u8>, i: int)
    requires
        0 <= i <= s.len(),
    ensures
        i <= piece_end(s, i) <= s.len(),
        piece_end(s, i) < s.len() ==> s[piece_end(s, i)] == SLASH,
        forall|k: int| i <= k < piece_end(s, i) ==> s[k] != SLASH,
    decreases s.len() - i,
{
    if i < s.len() && s[i] != SLASH {
        lemma_piece_end(s, i + 1);
    }
}

/// Nothing else than the next slash, or the end of the path, ends a piece.
pub proof fn lemma_piece_end_unique(s: Seq<u8>, i: int, j: int)
    requires
        0 <= i <= j <= s.len(),
        j < s.len() ==> s[j] == SLASH,
        forall|k: int| i <= k < j ==> s[k] != SLASH,
    ensures
        piece_end(s, i) == j,
{
    lemma_piece_end(s, i);
    let e = piece_end(s, i);
    if e < j {
        assert(s[e] != SLASH);
    }
}

/// What the spans from `i` on look like: inside the path, in order, apart from
/// each other, free of slashes, ended by a slash or by the end of the path, and
/// none of them a `.` away from the start.
pub open spec fn well_spaced(s: Seq<u8>, i: int, p: Seq<(int, int)>) -> bool {
    &&& forall|k: int| 0 <= k < p.len() ==> i <= (#[trigger] p[k]).0 < p[k].1 <= s.len()
    &&& forall|k: int, l: int| 0 <= k < l < p.len() ==> (#[trigger] p[k]).1 < (#[trigger] p[l]).0
    &&& forall|k: int| 0 <= k < p.len() ==> is_component(s, (#[trigger] p[k]).0, p[k].1)
    &&& forall|k: int, m: int|
        0 <= k < p.len() && (#[trigger] p[k]).0 <= m < p[k].1 ==> #[trigger] s[m] != SLASH
    &&& forall|k: int| 0 <= k < p.len() && (#[trigger] p[k]).1 < s.len() ==> s[p[k].1] == SLASH
}

pub proof fn lemma_spans_from(s: Seq<u8>, i: int)
    requires
        0 <= i,
    ensures
        well_spaced(s, i, spans_from(s, i)),
    decreases s.len() + 1 - i,
{
    if i < s.len() {
        lemma_piece_end(s, i);
        let j = piece_end(s, i);
        lemma_spans_from(s, j + 1);
        let rest = spans_from(s, j + 1);
        let p = spans_from(s, i);
        if is_component(s, i, j) {
            assert(p == seq![(i, j)] + rest);
            assert forall|k: int| 1 <= k < p.len() implies #[trigger] p[k] == rest[k - 1] by {}
        }
    }
}

/// Cutting the path at the end of a piece cuts its spans in two.
proof fn lemma_spans_cut(s: Seq<u8>, i: int, e: int)
    requires
        0 <= i <= e + 1,
        0 <= e <= s.len(),
        e < s.len() ==> s[e] == SLASH,
    ensures
        spans_from(s, i) == spans_from(s.take(e), i) + spans_from(s, e + 1),
    decreases s.len() + 1 - i,
{
    let t = s.take(e);
    if i < e {
        lemma_piece_end(s, i);
        let j = piece_end(s, i);
        assert(j <= e);
        lemma_piece_end_unique(t, i, j);
        lemma_spans_cut(s, j + 1, e);
        if is_component(s, i, j) {
            assert(seq![(i, j)] + (spans_from(t, j + 1) + spans_from(s, e + 1)) =~= (seq![(i, j)]
                + spans_from(t, j + 1)) + spans_from(s, e + 1));
        }
    } else if i == e {
        if i < s.len() {
            lemma_piece_end_unique(s, i, i);
        }
        assert(spans_from(t, i) =~= Seq::empty());
        assert(spans_from(s, i) =~= spans_from(t, i) + spans_from(s, e + 1));
    } else {
        assert(spans_from(t, i) =~= Seq::empty());
        assert(spans_from(s, i) =~= spans_from(t, i) + spans_from(s, e + 1));
    }
}

/// The spans `p`, moved by `d` to the left.
pub open spec fn moved(p: Seq<(int, int)>, d: int) -> Seq<(int, int)> {
    p.map_values(|q: (int, int)| (q.0 - d, q.1 - d))
}

/// Dropping the first `d` bytes moves the spans of all pieces that start later.
proof fn lemma_spans_moved(s: Seq<u8>, d: int, i: int)
    requires
        0 <= d < i,
        d <= s.len(),
    ensures
        spans_from(s.skip(d), i - d) == moved(spans_from(s, i), d),
    decreases s.len() + 1 - i,
{
    let t = s.skip(d);
    if i < s.len() {
        lemma_piece_end(s, i);
        let j = piece_end(s, i);
        assert forall|k: int| i - d <= k < j - d implies t[k] != SLASH by {
            assert(t[k] == s[k + d]);
        }
        lemma_piece_end_unique(t, i - d, j - d);
        lemma_spans_moved(s, d, j + 1);
        assert(t[i - d] == s[i]);
        if is_component(s, i, j) {
            assert(moved(seq![(i, j)] + spans_from(s, j + 1), d) =~= seq![(i - d, j - d)] + moved(
                spans_from(s, j + 1),
                d,
            ));
        }
    } else {
        assert(moved(spans_from(s, i), d) =~= Seq::empty());
    }
}

/// From the start of a span on, the spans are that one and its successors.
proof fn lemma_spans_resume(s: Seq<u8>, i: int, k: int)
    requires
        0 <= i,
        0 <= k < spans_from(s, i).len(),
    ensures
        spans_from(s, spans_from(s, i)[k].0) == spans_from(s, i).skip(k),
    decreases s.len() + 1 - i,
{
    if i < s.len() {
        lemma_piece_end(s, i);
        let j = piece_end(s, i);
        let rest = spans_from(s, j + 1);
        if is_component(s, i, j) {
            if k == 0 {
                assert(spans_from(s, i).skip(0) =~= spans_from(s, i));
            } else {
                assert(spans_from(s, i)[k] == rest[k - 1]);
                lemma_spans_resume(s, j + 1, k - 1);
                assert(spans_from(s, i).skip(k) =~= rest.skip(k - 1));
            }
        } else {
            lemma_spans_resume(s, j + 1, k);
        }
    }
}

/// The end of the last component; nothing behind it counts.
pub open spec fn last_end(s: Seq<u8>) -> int {
    if spans(s).len() == 0 {
        0
    } else {
        spans(s).last().1
    }
}

proof fn lemma_nothing_behind_span(s: Seq<u8>, i: int)
    requires
        0 <= i,
        spans_from(s, i).len() > 0,
    ensures
        spans_from(s, spans_from(s, i).last().1 + 1) == Seq::<(int, int)>::empty(),
{
    lemma_spans_from(s, i);
    let p = spans_from(s, i);
    let k = p.len() - 1;
    let (a, b) = p[k];
    lemma_spans_resume(s, i, k);
    lemma_piece_end_unique(s, a, b);
    assert(spans_from(s, a) == seq![(a, b)] + spans_from(s, b + 1));
    assert(p.skip(k).len() == 1);
    assert(spans_from(s, b + 1) =~= Seq::empty());
}

/// The spans of a path are inside it, in order, and not empty.
pub proof fn lemma_spans(s: Seq<u8>)
    ensures
        forall|k: int| 0 <= k < spans(s).len() ==> 0 <= (#[trigger] spans(s)[k]).0 < spans(s)[k].1
            <= s.len(),
        forall|k: int, l: int|
            0 <= k < l < spans(s).len() ==> (#[trigger] spans(s)[k]).1 <= (#[trigger] spans(
                s,
            )[l]).0,
        spans(s).len() > 0 ==> spans(s)[0].0 == 0,
        spans(s).len() == 0 <==> s.len() == 0,
        0 <= last_end(s) <= s.len(),
{
    let i: int = if is_absolute(s) { 1 } else { 0 };
    lemma_spans_from(s, i);
    if is_absolute(s) {
        assert forall|k: int| 1 <= k < spans(s).len() implies #[trigger] spans(s)[k] == spans_from(
            s,
            1,
        )[k - 1] by {}
    } else if s.len() > 0 {
        lemma_piece_end(s, 0);
        assert(spans_from(s, 0)[0].0 == 0);
    }
}

/// The part of `s` from its component `k` on, without anything behind the last one.
pub open spec fn from_component(s: Seq<u8>, k: int) -> Seq<u8> {
    if 0 <= k < spans(s).len() {
        s.subrange(spans(s)[k].0, last_end(s))
    } else {
        Seq::empty()
    }
}

/// What stands behind the last component changes nothing.
proof fn lemma_trimmed(s: Seq<u8>)
    ensures
        spans(s.take(last_end(s))) == spans(s),
        components(s.take(last_end(s))) == components(s),
{
    lemma_spans(s);
    let p = spans(s);
    let e = last_end(s);
    let t = s.take(e);
    let i: int = if is_absolute(s) { 1 } else { 0 };
    lemma_spans_from(s, i);
    if spans_from(s, i).len() > 0 {
        assert(p.last() == spans_from(s, i).last());
        lemma_nothing_behind_span(s, i);
        lemma_spans_cut(s, i, e);
    }
    assert(spans_from(t, i) =~= spans_from(s, i));
    if is_absolute(s) {
        assert(t[0] == s[0]);
    } else if t.len() > 0 {
        assert(t[0] == s[0]);
    }
    assert(spans(t) =~= p);
    assert forall|m: int| 0 <= m < p.len() implies #[trigger] components(t)[m] == components(s)[m] by {
        if m < p.len() - 1 {
            assert(p[m].1 <= p[p.len() - 1].0);
        }
        assert(t.subrange(p[m].0, p[m].1) =~= s.subrange(p[m].0, p[m].1));
    }
    assert(components(t) =~= components(s));
}

/// From the start of a name on, the spans are those of the names from there on,
/// moved to the front.
proof fn lemma_spans_from_name(s: Seq<u8>, k: int)
    requires
        0 <= k < spans(s).len(),
        is_absolute(s) ==> k > 0,
    ensures
        !is_absolute(s.skip(spans(s)[k].0)),
        spans(s.skip(spans(s)[k].0)) == moved(spans(s).skip(k), spans(s)[k].0),
        k > 0 ==> is_component(s, spans(s)[k].0, spans(s)[k].1) && spans(s)[k].0 > 0,
{
    lemma_spans(s);
    let p = spans(s);
    let i: int = if is_absolute(s) { 1 } else { 0 };
    let h: int = if is_absolute(s) { k - 1 } else { k };
    let (a, b) = p[k];
    let t = s.skip(a);
    assert(spans_from(s, i)[h] == (a, b));
    lemma_spans_from(s, i);
    lemma_spans_resume(s, i, h);
    lemma_piece_end_unique(s, a, b);
    assert(spans_from(s, a) == seq![(a, b)] + spans_from(s, b + 1));
    assert(spans_from(s, i).skip(h) =~= p.skip(k));
    lemma_spans_moved(s, a, b + 1);
    assert forall|m: int| 0 <= m < b - a implies t[m] != SLASH by {
        assert(t[m] == s[m + a]);
    }
    assert(t[0] == s[a]);
    assert(b - a < t.len() ==> t[b - a] == s[b]);
    lemma_piece_end_unique(t, 0, b - a);
    assert(spans(t) == seq![(0int, b - a)] + spans_from(t, b - a + 1));
    assert(p.skip(k) =~= seq![(a, b)] + spans_from(s, b + 1));
    assert(spans(t) =~= moved(p.skip(k), a));
    if k > 0 {
        assert(p[0].1 <= p[k].0);
    }
}

/// Reading on from component `k` yields exactly the components from `k` on.
pub proof fn lemma_from_component(s: Seq<u8>, k: int)
    requires
        0 <= k <= spans(s).len(),
    ensures
        components(from_component(s, k)) == components(s).skip(k),
        k > 0 ==> !is_absolute(from_component(s, k)),
        k > 0 && k < spans(s).len() ==> components(from_component(s, k))[0] != seq![DOT],
{
    let t = from_component(s, k);
    if k == spans(s).len() {
        assert(components(t) =~= Seq::empty());
        assert(components(s).skip(k) =~= Seq::empty());
    } else {
        lemma_spans(s);
        lemma_trimmed(s);
        let c = s.take(last_end(s));
        lemma_spans(c);
        let p = spans(c);
        let (a, b) = p[k];
        assert(t =~= c.skip(a));
        if is_absolute(s) && k == 0 {
            assert(t =~= c);
            assert(components(s).skip(0) =~= components(s));
        } else {
            assert(c[0] == s[0]);
            lemma_spans_from_name(c, k);
            assert forall|m: int| 0 <= m < p.len() - k implies #[trigger] components(t)[m]
                == components(c)[m + k] by {
                let q = p[m + k];
                assert(p.skip(k)[m] == q);
                assert(spans(t)[m] == (q.0 - a, q.1 - a));
                assert(p[k].0 <= q.0);
                assert(t.subrange(q.0 - a, q.1 - a) =~= c.subrange(q.0, q.1));
            }
            assert(components(t) =~= components(s).skip(k));
            if k > 0 {
                assert(spans(t)[0] == (0int, b - a)) by {
                    assert(p.skip(k)[0] == p[k]);
                }
                assert(components(t)[0] == t.subrange(0, b - a));
                if components(t)[0] == seq![DOT] {
                    assert(t.subrange(0, b - a).len() == 1);
                    assert(t.subrange(0, b - a)[0] == DOT);
                    assert(c[a] == DOT);
                }
            }
        }
    }
}

/// The part of `s` that ends with its `k`th component.
pub open spec fn until_component(s: Seq<u8>, k: int) -> Seq<u8> {
    if 0 < k <= spans(s).len() {
        s.take(spans(s)[k - 1].1)
    } else {
        Seq::empty()
    }
}

/// Cutting the path behind a span keeps the spans up to that one.
proof fn lemma_spans_until(s: Seq<u8>, i: int, h: int)
    requires
        0 <= i,
        0 <= h < spans_from(s, i).len(),
    ensures
        spans_from(s.take(spans_from(s, i)[h].1), i) == spans_from(s, i).take(h + 1),
{
    lemma_spans_from(s, i);
    let p = spans_from(s, i);
    let (a, e) = p[h];
    let head = spans_from(s.take(e), i);
    let tail = spans_from(s, e + 1);
    lemma_spans_resume(s, i, h);
    lemma_piece_end_unique(s, a, e);
    assert(p.skip(h) == seq![(a, e)] + tail);
    assert(p.skip(h).len() == tail.len() + 1);
    lemma_spans_cut(s, i, e);
    assert(p == head + tail);
    assert(head =~= p.take(h + 1));
}

/// Reading up to the `k`th component yields exactly the first `k` components.
pub proof fn lemma_until_component(s: Seq<u8>, k: int)
    requires
        0 <= k <= spans(s).len(),
    ensures
        components(until_component(s, k)) == components(s).take(k),
        k > 0 ==> is_absolute(until_component(s, k)) == is_absolute(s),
{
    let t = until_component(s, k);
    let p = spans(s);
    if k == 0 {
        assert(components(t) =~= components(s).take(0));
    } else {
        lemma_spans(s);
        assert(t[0] == s[0]);
        if !is_absolute(s) {
            lemma_spans_until(s, 0, k - 1);
        } else if k > 1 {
            assert(p[k - 1] == spans_from(s, 1)[k - 2]);
            lemma_spans_until(s, 1, k - 2);
        }
        assert(spans(t) =~= p.take(k));
        assert forall|m: int| 0 <= m < k implies #[trigger] components(t)[m] == components(s)[m] by {
            assert(spans(t)[m] == p[m]);
            if m < k - 1 {
                assert(p[m].1 <= p[k - 1].0);
            }
            assert(t.subrange(p[m].0, p[m].1) =~= s.subrange(p[m].0, p[m].1));
        }
        assert(components(t) =~= components(s).take(k));
    }
}

/// `tail` put behind `base`: an absolute `tail` replaces it, otherwise one slash
/// stands between the two.
pub open spec fn joined(base: Seq<u8>, tail: Seq<u8>) -> Seq<u8> {
    if is_absolute(tail) || base.len() == 0 {
        tail
    } else if base.last() == SLASH {
        base + tail
    } else {
        base.push(SLASH) + tail
    }
}

/// The components of a path that no longer starts what it stands in: a leading
/// `.` is lost.
pub open spec fn inner_components(s: Seq<u8>) -> Seq<Seq<u8>> {
    if components(s).len() > 0 && components(s)[0] == seq![DOT] {
        components(s).skip(1)
    } else {
        components(s)
    }
}

/// Behind a slash, a relative path contributes its inner components.
proof fn lemma_spans_of_tail(s: Seq<u8>, d: int)
    requires
        0 < d <= s.len(),
        !is_absolute(s.skip(d)),
    ensures
        spans_from(s, d).len() == inner_components(s.skip(d)).len(),
        forall|k: int|
            0 <= k < spans_from(s, d).len() ==> s.subrange(
                (#[trigger] spans_from(s, d)[k]).0,
                spans_from(s, d)[k].1,
            ) == inner_components(s.skip(d))[k],
{
    let t = s.skip(d);
    if t.len() == 0 {
        assert(components(t) =~= Seq::empty());
    } else {
        lemma_piece_end(t, 0);
        let j = piece_end(t, 0);
        assert forall|k: int| d <= k < d + j implies s[k] != SLASH by {
            assert(t[k - d] == s[k]);
        }
        assert(d + j < s.len() ==> s[d + j] == t[j]);
        lemma_piece_end_unique(s, d, d + j);
        lemma_spans_moved(s, d, d + j + 1);
        let rest = spans_from(s, d + j + 1);
        let p = spans(t);
        assert(t[0] == s[d]);
        assert(p == seq![(0int, j)] + moved(rest, d));
        assert(components(t)[0] == t.subrange(0, j));
        let dot = j == 1 && t[0] == DOT;
        assert(dot == (components(t)[0] == seq![DOT])) by {
            if dot {
                assert(t.subrange(0, j) =~= seq![DOT]);
            } else if components(t)[0] == seq![DOT] {
                assert(t.subrange(0, j).len() == 1);
                assert(t.subrange(0, j)[0] == DOT);
            }
        }
        lemma_spans_from(s, d);
        assert forall|k: int| 0 <= k < spans_from(s, d).len() implies s.subrange(
            (#[trigger] spans_from(s, d)[k]).0,
            spans_from(s, d)[k].1,
        ) == inner_components(t)[k] by {
            let q = spans_from(s, d)[k];
            let l: int = if dot { k + 1 } else { k };
            assert(p[l] == (q.0 - d, q.1 - d));
            assert(inner_components(t)[k] == components(t)[l]);
            assert(t.subrange(q.0 - d, q.1 - d) =~= s.subrange(q.0, q.1));
        }
    }
}

/// Joining appends the components of a relative path.
pub proof fn lemma_joined(base: Seq<u8>, tail: Seq<u8>)
    requires
        base.len() > 0,
        !is_absolute(tail),
    ensures
        components(joined(base, tail)) == components(base) + inner_components(tail),
        is_absolute(joined(base, tail)) == is_absolute(base),
{
    let s = joined(base, tail);
    let i: int = if is_absolute(base) { 1 } else { 0 };
    let e: int = if base.last() == SLASH { base.len() - 1 } else { base.len() as int };
    let d: int = e + 1;
    assert(s[0] == base[0]);
    assert(s[e] == SLASH);
    assert(s.skip(d) =~= tail);
    lemma_spans_cut(s, i, e);
    assert(spans_from(s, i) == spans_from(base, i) + spans_from(s, d)) by {
        if base.last() == SLASH {
            lemma_spans_cut(base, i, e);
            assert(s.take(e) =~= base.take(e));
            assert(spans_from(base, e + 1) =~= Seq::empty());
            assert(spans_from(base, i) =~= spans_from(base.take(e), i));
        } else {
            assert(s.take(e) =~= base);
        }
    }
    lemma_spans_of_tail(s, d);
    lemma_spans(base);
    let p = spans(base);
    assert(spans(s) =~= p + spans_from(s, d));
    let want = components(base) + inner_components(tail);
    assert forall|k: int| 0 <= k < want.len() implies #[trigger] components(s)[k] == want[k] by {
        if k < p.len() {
            assert(spans(s)[k] == p[k]);
            assert(s.subrange(p[k].0, p[k].1) =~= base.subrange(p[k].0, p[k].1));
        } else {
            assert(spans(s)[k] == spans_from(s, d)[k - p.len()]);
        }
    }
    assert(components(s) =~= want);
}

/// A span starts where the reading starts or behind a slash.
proof fn lemma_span_starts(s: Seq<u8>, i: int, k: int)
    requires
        0 <= i,
        0 <= k < spans_from(s, i).len(),
    ensures
        spans_from(s, i)[k].0 == i || s[spans_from(s, i)[k].0 - 1] == SLASH,
    decreases s.len() + 1 - i,
{
    if i < s.len() {
        lemma_piece_end(s, i);
        let j = piece_end(s, i);
        let rest = spans_from(s, j + 1);
        let h: int = if is_component(s, i, j) { k - 1 } else { k };
        if h >= 0 {
            assert(spans_from(s, i)[k] == rest[h]);
            lemma_span_starts(s, j + 1, h);
        }
    }
}

/// A name without slashes is a path of one component.
pub proof fn lemma_single_component(name: Seq<u8>)
    requires
        name.len() > 0,
        !name.contains(SLASH),
    ensures
        components(name) == seq![name],
        !is_absolute(name),
{
    assert(name[0] != SLASH);
    assert forall|k: int| 0 <= k < name.len() implies name[k] != SLASH by {
        assert(name.contains(name[k]));
    }
    lemma_piece_end_unique(name, 0, name.len() as int);
    let n = name.len() as int;
    assert(spans_from(name, n + 1) =~= Seq::empty());
    assert(spans_from(name, 0) == seq![(0int, n)] + spans_from(name, n + 1));
    assert(spans(name) =~= seq![(0int, n)]);
    assert(components(name)[0] =~= name);
    assert(components(name) =~= seq![name]);
}

/// Another name in the place of the last component changes that component only.
pub proof fn lemma_last_replaced(s: Seq<u8>, name: Seq<u8>)
    requires
        spans(s).len() > 0,
        components(s).last() != seq![SLASH],
        name.len() > 0,
        !name.contains(SLASH),
        name != seq![DOT],
    ensures
        components(s.take(spans(s).last().0) + name) == components(s).drop_last().push(name),
{
    lemma_spans(s);
    lemma_single_component(name);
    let p = spans(s);
    let n = p.len() as int;
    let a = p.last().0;
    let base = s.take(a);
    if n == 1 && is_absolute(s) {
        assert(components(s)[0] =~= seq![SLASH]);
    }
    if n == 1 {
        assert(base + name =~= name);
        assert(components(s).drop_last().push(name) =~= seq![name]);
    } else {
        let i: int = if is_absolute(s) { 1 } else { 0 };
        let q = spans_from(s, i);
        let h = q.len() - 1;
        assert(q[h] == p.last());
        lemma_spans_from(s, i);
        lemma_span_starts(s, i, h);
        assert(p[0].1 <= p[n - 1].0);
        if is_absolute(s) {
            assert(s[0] == SLASH);
        }
        assert(s[a - 1] == SLASH);
        lemma_spans_cut(s, i, a - 1);
        lemma_spans_resume(s, i, h);
        assert(q.skip(h).len() == 1);
        lemma_spans_cut(base, i, a - 1);
        assert(base.take(a - 1) =~= s.take(a - 1));
        assert(spans_from(base, a) =~= Seq::empty());
        assert(spans_from(base, i) =~= q.drop_last());
        assert(base[0] == s[0]);
        assert(spans(base) =~= p.drop_last());
        assert forall|m: int| 0 <= m < n - 1 implies #[trigger] components(base)[m]
            == components(s)[m] by {
            assert(p[m].1 <= p[n - 1].0);
            assert(base.subrange(p[m].0, p[m].1) =~= s.subrange(p[m].0, p[m].1));
        }
        assert(components(base) =~= components(s).drop_last());
        lemma_joined(base, name);
        assert(joined(base, name) =~= base + name);
        assert(inner_components(name) =~= seq![name]);
        assert(components(base + name) =~= components(s).drop_last().push(name));
    }
}

/// A path is read piece by piece: a slash behind it adds nothing, a name behind that adds
/// the name, and a `.` adds nothing. The root is a component of its own.
pub proof fn law_paths_are_read_piece_by_piece(base: Seq<u8>, name: Seq<u8>)
    requires
        name.len() > 0,
        !name.contains(SLASH),
    ensures
        components(Seq::empty()) == Seq::<Seq<u8>>::empty(),
        components(seq![SLASH]) == seq![seq![SLASH]],
        components(name) == seq![name],
        base.len() > 0 ==> components(base.push(SLASH)) == components(base),
        base.len() > 0 && name != seq![DOT] ==> components(base.push(SLASH) + name) == components(
            base,
        ).push(name),
        base.len() > 0 ==> components(base.push(SLASH).push(DOT)) == components(base),
{
    lemma_single_component(name);
    assert(components(Seq::empty()) =~= Seq::empty());
    let slash = seq![SLASH];
    assert(spans_from(slash, 1) =~= Seq::empty());
    assert(spans(slash) =~= seq![(0int, 1int)]);
    assert(slash.subrange(0, 1) =~= slash);
    assert(components(slash) =~= seq![slash]);
    if base.len() > 0 {
        let s = base.push(SLASH);
        let i: int = if is_absolute(base) { 1 } else { 0 };
        let e = base.len() as int;
        assert(s[0] == base[0]);
        lemma_spans_cut(s, i, e);
        assert(s.take(e) =~= base);
        assert(spans_from(s, e + 1) =~= Seq::empty());
        assert(spans_from(s, i) =~= spans_from(base, i));
        lemma_spans(base);
        assert(spans(s) =~= spans(base));
        assert forall|k: int| 0 <= k < spans(base).len() implies #[trigger] components(s)[k]
            == components(base)[k] by {
            let p = spans(base)[k];
            assert(s.subrange(p.0, p.1) =~= base.subrange(p.0, p.1));
        }
        assert(components(s) =~= components(base));
        assert(joined(s, name) == s + name);
        lemma_joined(s, name);
        assert(components(base) + seq![name] =~= components(base).push(name));
        let dot = seq![DOT];
        assert(dot[0] == DOT);
        lemma_single_component(dot);
        lemma_joined(s, dot);
        assert(inner_components(dot) =~= Seq::empty());
        assert(joined(s, dot) =~= s.push(DOT));
        assert(components(base) + Seq::<Seq<u8>>::empty() =~= components(base));
    }
}

/// What `joined` says of bytes: one slash stands between the two, unless there is one, and
/// an absolute path replaces what it is put behind.
pub proof fn law_one_slash_stands_between(base: Seq<u8>, tail: Seq<u8>)
    ensures
        is_absolute(tail) ==> joined(base, tail) == tail,
        base.len() == 0 ==> joined(base, tail) == tail,
        !is_absolute(tail) && base.len() > 0 && base.last() == SLASH ==> joined(base, tail) == base
            + tail,
        !is_absolute(tail) && base.len() > 0 && base.last() != SLASH ==> joined(base, tail) == base
            + seq![SLASH] + tail,
        is_absolute(tail) <==> tail.len() > 0 && tail[0] == 47,
{
    assert(base.push(SLASH) + tail =~= base + seq![SLASH] + tail);
}

/// The part of a joined path behind its base is spelled as the tail was, where that starts
/// and ends with a name.
pub proof fn lemma_tail_of_joined(base: Seq<u8>, tail: Seq<u8>)
    requires
        base.len() > 0,
        tail.len() > 0,
        tail[0] != SLASH,
        tail.last() != SLASH,
        components(tail)[0] != seq![DOT],
        last_end(tail) == tail.len(),
    ensures
        from_component(joined(base, tail), components(base).len() as int) == tail,
        spans(joined(base, tail))[components(base).len() as int].0 == joined(base, tail).len()
            - tail.len(),
{
    let s = joined(base, tail);
    let i: int = if is_absolute(base) { 1 } else { 0 };
    let e: int = if base.last() == SLASH { base.len() - 1 } else { base.len() as int };
    let d: int = e + 1;
    assert(s[0] == base[0]);
    assert(s[e] == SLASH);
    assert(s.skip(d) =~= tail);
    lemma_spans_cut(s, i, e);
    assert(spans_from(s, i) == spans_from(base, i) + spans_from(s, d)) by {
        if base.last() == SLASH {
            lemma_spans_cut(base, i, e);
            assert(s.take(e) =~= base.take(e));
            assert(spans_from(base, e + 1) =~= Seq::empty());
            assert(spans_from(base, i) =~= spans_from(base.take(e), i));
        } else {
            assert(s.take(e) =~= base);
        }
    }
    assert(spans(s) =~= spans(base) + spans_from(s, d));
    lemma_piece_end(tail, 0);
    let j = piece_end(tail, 0);
    assert forall|k: int| d <= k < d + j implies s[k] != SLASH by {
        assert(tail[k - d] == s[k]);
    }
    assert(d + j < s.len() ==> s[d + j] == tail[j]);
    lemma_piece_end_unique(s, d, d + j);
    lemma_spans_moved(s, d, d + j + 1);
    let rest = spans_from(s, d + j + 1);
    assert(s[d] == tail[0]);
    assert(spans(tail) == seq![(0int, j)] + moved(rest, d));
    assert(components(tail)[0] == tail.subrange(0, j));
    if j == 1 && tail[0] == DOT {
        assert(tail.subrange(0, j) =~= seq![DOT]);
    }
    assert(spans_from(s, d) == seq![(d, d + j)] + rest);
    let k = spans(base).len() as int;
    assert(spans(s)[k] == (d, d + j));
    if rest.len() > 0 {
        assert(spans(s).last() == rest.last());
        assert(spans(tail).last() == moved(rest, d).last());
    } else {
        assert(spans(s).last() == (d, d + j));
        assert(spans(tail).last() == (0int, j));
    }
    assert(last_end(s) == last_end(tail) + d);
    assert(s.subrange(d, s.len() as int) =~= tail);
}

} // verus!
