//! File-system paths: byte strings that are compared, prefixed and joined by
//! their components.

use vstd::prelude::*;
use vstd::utf8::{encode_utf8, valid_utf8};

use crate::components::{
    components, from_component, inner_components, is_absolute, joined, last_end,
    law_paths_are_read_piece_by_piece, lemma_from_component, lemma_joined, lemma_piece_end_unique,
    lemma_single_component, lemma_spans, lemma_tail_of_joined, lemma_until_component, spans, spans_from, until_component, DOT, SLASH,
};
use crate::text::{lossy_chars, lossy_text, text_bytes, utf8_text};
use crate::views::seq_view;

verus! {

/// A path in the file system, as the bytes that spell it.
#[derive(Debug)]
pub struct FsPath {
    pub bytes: Vec<u8>,
}

impl View for FsPath {
    type V = Seq<u8>;

    open spec fn view(&self) -> Seq<u8> {
        self.bytes@
    }
}

/// Whether the components of `base` start those of `s`.
pub open spec fn is_under(s: Seq<u8>, base: Seq<u8>) -> bool {
    components(base).is_prefix_of(components(s))
}

/// What is left of `s` once the components of `base` are taken off its front.
pub open spec fn stripped(s: Seq<u8>, base: Seq<u8>) -> Option<Seq<u8>> {
    if is_under(s, base) {
        Some(from_component(s, components(base).len() as int))
    } else {
        None
    }
}

/// The path without its last component; the root and the empty path have none.
pub open spec fn parent_of(s: Seq<u8>) -> Option<Seq<u8>> {
    let n = spans(s).len() as int;
    if n == 0 || (n == 1 && is_absolute(s)) {
        None
    } else {
        Some(until_component(s, n - 1))
    }
}

/// The last component, where it is a name: not the root, nor `.`, nor `..`.
pub open spec fn name_of(s: Seq<u8>) -> Option<Seq<u8>> {
    let c = components(s);
    if c.len() == 0 || c.last() == seq![SLASH] || c.last() == seq![DOT] || c.last() == seq![DOT, DOT] {
        None
    } else {
        Some(c.last())
    }
}

impl FsPath {
    /// The path that the given bytes spell.
    pub fn from_bytes(bytes: Vec<u8>) -> (path: FsPath)
        ensures
            path@ == bytes@,
    {
        FsPath { bytes }
    }

    /// The path that the given text spells.
    pub fn from_text(text: &str) -> (path: FsPath)
        ensures
            path@ == encode_utf8(text@),
    {
        FsPath { bytes: text_bytes(text) }
    }

    /// The path as text, where it is valid UTF-8.
    pub fn text(&self) -> (text: Option<String>)
        ensures
            text is Some <==> valid_utf8(self@),
            text matches Some(t) ==> encode_utf8(t@) == self@,
    {
        utf8_text(self.bytes.as_slice())
    }

    /// The path as text to show, whatever its bytes are.
    pub fn display(&self) -> (text: String)
        ensures
            text@ == lossy_chars(self@),
            valid_utf8(self@) ==> encode_utf8(text@) == self@,
    {
        lossy_text(self.bytes.as_slice())
    }

    /// Whether the path starts at the root.
    pub fn is_absolute(&self) -> (yes: bool)
        ensures
            yes == is_absolute(self@),
    {
        self.bytes.len() > 0 && self.bytes[0] == SLASH
    }

    /// Whether two paths are spelled the same.
    pub fn same_bytes(&self, other: &FsPath) -> (same: bool)
        ensures
            same == (self@ == other@),
    {
        let same = self.same_component((0, self.bytes.len()), other, (0, other.bytes.len()));
        assert(self@.subrange(0, self@.len() as int) =~= self@);
        assert(other@.subrange(0, other@.len() as int) =~= other@);
        same
    }

    /// Where the components of the path lie in its bytes.
    fn component_spans(&self) -> (found: Vec<(usize, usize)>)
        ensures
            found@.len() == spans(self@).len(),
            forall|k: int|
                0 <= k < found@.len() ==> (#[trigger] found@[k]).0 == spans(self@)[k].0
                    && found@[k].1 == spans(self@)[k].1,
    {
        let ghost s = self@;
        let mut found: Vec<(usize, usize)> = Vec::new();
        let mut start: usize = 0;
        if self.is_absolute() {
            found.push((0, 1));
            start = 1;
        }
        let n = self.bytes.len();
        assert(spans(s) =~= as_spans(found@) + spans_from(s, start as int));
        while start < n
            invariant
                n == s.len(),
                s == self.bytes@,
                spans(s) == as_spans(found@) + spans_from(s, start as int),
            decreases s.len() + 1 - start,
        {
            let mut end: usize = start;
            while end < n && self.bytes[end] != SLASH
                invariant
                    start <= end <= n,
                    n == s.len(),
                    s == self.bytes@,
                    forall|k: int| start <= k < end ==> s[k] != SLASH,
                decreases n - end,
            {
                end += 1;
            }
            proof {
                lemma_piece_end_unique(s, start as int, end as int);
            }
            let ghost before = found@;
            if start < end && !(start > 0 && end - start == 1 && self.bytes[start] == DOT) {
                found.push((start, end));
                assert(as_spans(found@) =~= as_spans(before).push((start as int, end as int)));
            }
            assert(spans(s) =~= as_spans(found@) + spans_from(s, end + 1));
            if end == n {
                assert(spans(s) =~= as_spans(found@));
                return found;
            }
            start = end + 1;
        }
        assert(spans(s) =~= as_spans(found@));
        found
    }
}

impl FsPath {
    /// Whether the components at two spans are the same.
    fn same_component(&self, p: (usize, usize), other: &FsPath, q: (usize, usize)) -> (same: bool)
        requires
            p.0 <= p.1 <= self@.len(),
            q.0 <= q.1 <= other@.len(),
        ensures
            same == (self@.subrange(p.0 as int, p.1 as int) == other@.subrange(
                q.0 as int,
                q.1 as int,
            )),
    {
        let ghost a = self@.subrange(p.0 as int, p.1 as int);
        let ghost b = other@.subrange(q.0 as int, q.1 as int);
        let n = p.1 - p.0;
        if n != q.1 - q.0 {
            assert(a.len() != b.len());
            return false;
        }
        let mut i: usize = 0;
        while i < n
            invariant
                i <= n,
                n == p.1 - p.0,
                n == q.1 - q.0,
                p.0 <= p.1 <= self.bytes@.len(),
                q.0 <= q.1 <= other.bytes@.len(),
                a == self.bytes@.subrange(p.0 as int, p.1 as int),
                b == other.bytes@.subrange(q.0 as int, q.1 as int),
                forall|k: int| 0 <= k < i ==> a[k] == b[k],
            decreases n - i,
        {
            if self.bytes[p.0 + i] != other.bytes[q.0 + i] {
                assert(a[i as int] != b[i as int]);
                return false;
            }
            assert(a[i as int] == b[i as int]);
            i += 1;
        }
        assert(a =~= b);
        true
    }

    /// Whether this path lies under `base`: the components of `base` start its own.
    pub fn starts_with(&self, base: &FsPath) -> (yes: bool)
        ensures
            yes == is_under(self@, base@),
    {
        let p = self.component_spans();
        let q = base.component_spans();
        proof {
            lemma_spans(self@);
            lemma_spans(base@);
        }
        if p.len() < q.len() {
            return false;
        }
        let mut i: usize = 0;
        while i < q.len()
            invariant
                i <= q@.len() <= p@.len(),
                p@.len() == components(self@).len(),
                q@.len() == components(base@).len(),
                forall|k: int|
                    0 <= k < p@.len() ==> 0 <= (#[trigger] p@[k]).0 <= p@[k].1 <= self@.len()
                        && components(self@)[k] == self@.subrange(p@[k].0 as int, p@[k].1 as int),
                forall|k: int|
                    0 <= k < q@.len() ==> 0 <= (#[trigger] q@[k]).0 <= q@[k].1 <= base@.len()
                        && components(base@)[k] == base@.subrange(q@[k].0 as int, q@[k].1 as int),
                forall|k: int| 0 <= k < i ==> components(self@)[k] == components(base@)[k],
            decreases q@.len() - i,
        {
            if !self.same_component(p[i], base, q[i]) {
                assert(components(self@).subrange(0, components(base@).len() as int)[i as int]
                    != components(base@)[i as int]);
                return false;
            }
            i += 1;
        }
        assert(components(self@).subrange(0, components(base@).len() as int) =~= components(base@));
        true
    }

    /// What is left of this path behind `base`, where it lies under `base`.
    pub fn strip_prefix(&self, base: &FsPath) -> (rest: Option<FsPath>)
        ensures
            rest is Some <==> stripped(self@, base@) is Some,
            rest matches Some(r) ==> r@ == stripped(self@, base@)->0,
    {
        if !self.starts_with(base) {
            return None;
        }
        let p = self.component_spans();
        let q = base.component_spans();
        proof {
            lemma_spans(self@);
        }
        if q.len() < p.len() {
            let from = p[q.len()].0;
            let to = p[p.len() - 1].1;
            Some(self.part(from, to))
        } else {
            Some(self.part(0, 0))
        }
    }

    /// The components of this path, one by one.
    pub fn component_list(&self) -> (list: Vec<Vec<u8>>)
        ensures
            list@.len() == components(self@).len(),
            forall|k: int| 0 <= k < list@.len() ==> (#[trigger] list@[k])@ == components(self@)[k],
    {
        let p = self.component_spans();
        proof {
            lemma_spans(self@);
        }
        let mut list: Vec<Vec<u8>> = Vec::new();
        let mut i: usize = 0;
        while i < p.len()
            invariant
                i <= p@.len() == components(self@).len(),
                list@.len() == i,
                forall|k: int|
                    0 <= k < p@.len() ==> 0 <= (#[trigger] p@[k]).0 <= p@[k].1 <= self@.len()
                        && components(self@)[k] == self@.subrange(p@[k].0 as int, p@[k].1 as int),
                forall|k: int| 0 <= k < i ==> (#[trigger] list@[k])@ == components(self@)[k],
            decreases p@.len() - i,
        {
            list.push(self.part(p[i].0, p[i].1).bytes);
            i += 1;
        }
        list
    }

    /// The path that the bytes from `from` to `to` spell.
    fn part(&self, from: usize, to: usize) -> (out: FsPath)
        requires
            from <= to <= self@.len(),
        ensures
            out@ == self@.subrange(from as int, to as int),
    {
        let mut bytes: Vec<u8> = Vec::new();
        let mut i: usize = from;
        while i < to
            invariant
                from <= i <= to <= self.bytes@.len(),
                bytes@ == self.bytes@.subrange(from as int, i as int),
            decreases to - i,
        {
            bytes.push(self.bytes[i]);
            i += 1;
            assert(bytes@ =~= self.bytes@.subrange(from as int, i as int));
        }
        FsPath { bytes }
    }

    /// This path with `tail` put behind it.
    pub fn join(&self, tail: &FsPath) -> (out: FsPath)
        ensures
            out@ == joined(self@, tail@),
    {
        let end = tail.bytes.len();
        let mut out = if tail.is_absolute() {
            self.part(0, 0)
        } else {
            self.part(0, self.bytes.len())
        };
        assert(tail.bytes@.take(0) =~= Seq::empty());
        if out.bytes.len() > 0 && out.bytes[out.bytes.len() - 1] != SLASH {
            out.bytes.push(SLASH);
        }
        let ghost head = out@;
        let mut i: usize = 0;
        while i < end
            invariant
                i <= end == tail.bytes@.len(),
                out.bytes@ == head + tail.bytes@.take(i as int),
            decreases end - i,
        {
            out.bytes.push(tail.bytes[i]);
            i += 1;
            assert(out.bytes@ =~= head + tail.bytes@.take(i as int));
        }
        assert(out@ =~= joined(self@, tail@));
        out
    }

    /// This path without its last component.
    pub fn parent(&self) -> (out: Option<FsPath>)
        ensures
            out is Some <==> parent_of(self@) is Some,
            out matches Some(p) ==> p@ == parent_of(self@)->0,
    {
        let p = self.component_spans();
        proof {
            lemma_spans(self@);
        }
        let n = p.len();
        if n == 0 || (n == 1 && self.is_absolute()) {
            None
        } else if n == 1 {
            Some(self.part(0, 0))
        } else {
            Some(self.part(0, p[n - 2].1))
        }
    }

    /// The last component of this path, where it is a name.
    pub fn file_name(&self) -> (name: Option<FsPath>)
        ensures
            name is Some <==> name_of(self@) is Some,
            name matches Some(n) ==> n@ == name_of(self@)->0,
    {
        let p = self.component_spans();
        proof {
            lemma_spans(self@);
        }
        let n = p.len();
        if n == 0 {
            return None;
        }
        let last = self.part(p[n - 1].0, p[n - 1].1);
        assert(last@ == components(self@).last());
        let size = last.bytes.len();
        if size == 1 && (last.bytes[0] == SLASH || last.bytes[0] == DOT) {
            assert(last@ =~= seq![last@[0]]);
            return None;
        }
        if size == 2 && last.bytes[0] == DOT && last.bytes[1] == DOT {
            assert(last@ =~= seq![DOT, DOT]);
            return None;
        }
        assert(last@ != seq![SLASH] && last@ != seq![DOT] && last@ != seq![DOT, DOT]) by {
            assert(seq![SLASH][0] == SLASH);
            assert(seq![DOT][0] == DOT);
            assert(seq![DOT, DOT][0] == DOT && seq![DOT, DOT][1] == DOT);
        }
        Some(last)
    }

    /// This path with the extension of its file name replaced, or added where the
    /// name has none.
    pub fn with_extension(&self, extension: &FsPath) -> (out: FsPath)
        ensures
            out@ == with_extension(self@, extension@),
    {
        let name = match self.file_name() {
            Some(name) => name,
            None => return self.part(0, self.bytes.len()),
        };
        let p = self.component_spans();
        proof {
            lemma_spans(self@);
        }
        let n = p.len();
        let mut dot: usize = name.bytes.len() - 1;
        while dot > 0 && name.bytes[dot] != DOT
            invariant
                dot < name.bytes@.len(),
                stem_end(name.bytes@, name.bytes@.len() - 1) == stem_end(name.bytes@, dot as int),
            decreases dot,
        {
            dot -= 1;
        }
        let stem = if dot > 0 {
            dot
        } else {
            name.bytes.len()
        };
        let mut out = self.part(0, p[n - 1].0 + stem);
        out.bytes.push(DOT);
        let ghost head = out@;
        let end = extension.bytes.len();
        let mut i: usize = 0;
        while i < end
            invariant
                i <= end == extension.bytes@.len(),
                out.bytes@ == head + extension.bytes@.take(i as int),
            decreases end - i,
        {
            out.bytes.push(extension.bytes[i]);
            i += 1;
            assert(out.bytes@ =~= head + extension.bytes@.take(i as int));
        }
        assert(out@ =~= with_extension(self@, extension@));
        out
    }
}

/// Where the stem of a file name ends: at its last dot, unless that starts the name.
pub open spec fn stem_end(name: Seq<u8>, k: int) -> int
    decreases k,
{
    if k <= 0 {
        name.len() as int
    } else if name[k] == DOT {
        k
    } else {
        stem_end(name, k - 1)
    }
}

/// `s` with the extension of its file name replaced or added; a path without a
/// file name stays as it is.
pub open spec fn with_extension(s: Seq<u8>, extension: Seq<u8>) -> Seq<u8> {
    match name_of(s) {
        None => s,
        Some(name) => s.take(spans(s).last().0 + stem_end(name, name.len() - 1)).push(DOT)
            + extension,
    }
}

impl Clone for FsPath {
    fn clone(&self) -> (copy: FsPath)
        ensures
            copy@ == self@,
    {
        let copy = self.part(0, self.bytes.len());
        assert(copy@ =~= self@);
        copy
    }
}

impl PartialEq for FsPath {
    /// Paths are equal when their components are.
    fn eq(&self, other: &FsPath) -> (same: bool) {
        let same = self.starts_with(other) && other.starts_with(self);
        proof {
            let a = components(self@);
            let b = components(other@);
            if same {
                assert(a =~= b);
            } else if a == b {
                assert(a.subrange(0, a.len() as int) =~= a);
            }
        }
        same
    }
}

impl vstd::std_specs::cmp::PartialEqSpecImpl for FsPath {
    open spec fn obeys_eq_spec() -> bool {
        true
    }

    open spec fn eq_spec(&self, other: &FsPath) -> bool {
        components(self@) == components(other@)
    }
}

impl Eq for FsPath {

}

/// Whether two lists hold the same paths.
pub open spec fn same_paths(a: Seq<Seq<u8>>, b: Seq<Seq<u8>>) -> bool {
    a.len() == b.len() && forall|i: int|
        0 <= i < a.len() ==> components(#[trigger] a[i]) == components(b[i])
}

/// Whether two lists hold the same paths.
pub fn same_path_lists(a: &Vec<FsPath>, b: &Vec<FsPath>) -> (same: bool)
    ensures
        same == same_paths(seq_view(a@), seq_view(b@)),
{
    if a.len() != b.len() {
        return false;
    }
    let mut i: usize = 0;
    while i < a.len()
        invariant
            i <= a@.len() == b@.len(),
            forall|k: int|
                0 <= k < i ==> components(#[trigger] seq_view(a@)[k]) == components(
                    seq_view(b@)[k],
                ),
        decreases a@.len() - i,
    {
        assert(seq_view(a@)[i as int] == a@[i as int]@ && seq_view(b@)[i as int] == b@[i as int]@);
        if !(a[i] == b[i]) {
            return false;
        }
        i += 1;
    }
    true
}

/// The paths once more.
pub fn copy_paths(paths: &Vec<FsPath>) -> (copy: Vec<FsPath>)
    ensures
        seq_view(copy@) == seq_view(paths@),
{
    let mut copy: Vec<FsPath> = Vec::new();
    let mut i: usize = 0;
    while i < paths.len()
        invariant
            i <= paths@.len(),
            copy@.len() == i,
            forall|k: int| 0 <= k < i ==> (#[trigger] copy@[k])@ == paths@[k]@,
        decreases paths@.len() - i,
    {
        copy.push(paths[i].clone());
        i += 1;
    }
    assert(seq_view(copy@) =~= seq_view(paths@));
    copy
}

/// What is left behind `base` is relative, and putting it behind `base` again
/// gives back the path.
pub proof fn law_strip_then_join(s: Seq<u8>, base: Seq<u8>)
    requires
        is_under(s, base),
    ensures
        components(joined(base, stripped(s, base)->0)) == components(s),
        base.len() > 0 ==> !is_absolute(stripped(s, base)->0),
        components(base) + components(stripped(s, base)->0) == components(s),
{
    let k = components(base).len() as int;
    let rest = stripped(s, base)->0;
    lemma_from_component(s, k);
    lemma_spans(base);
    lemma_spans(rest);
    assert(components(s).subrange(0, k) == components(base));
    assert(components(base) + components(s).skip(k) =~= components(s));
    if base.len() == 0 {
        assert(components(base) =~= Seq::empty());
    } else {
        lemma_joined(base, rest);
        assert(inner_components(rest) == components(rest));
    }
}

/// A relative path put behind `base` lies under `base`, and taking `base` off
/// again leaves its components, but for a leading `.`.
pub proof fn law_join_then_strip(base: Seq<u8>, tail: Seq<u8>)
    requires
        base.len() > 0,
        !is_absolute(tail),
    ensures
        is_under(joined(base, tail), base),
        components(stripped(joined(base, tail), base)->0) == inner_components(tail),
{
    lemma_joined(base, tail);
    let s = joined(base, tail);
    let k = components(base).len() as int;
    assert(components(s).subrange(0, k) =~= components(base));
    lemma_from_component(s, k);
    assert(components(s).skip(k) =~= inner_components(tail));
}

/// The parent has all components but the last.
pub proof fn law_parent_drops_last(s: Seq<u8>)
    requires
        parent_of(s) is Some,
    ensures
        components(parent_of(s)->0) == components(s).drop_last(),
{
    let n = spans(s).len() as int;
    lemma_until_component(s, n - 1);
    assert(components(s).take(n - 1) =~= components(s).drop_last());
}

/// Paths that lie under each other are equal, and lying under goes along chains.
pub proof fn law_under_is_an_order(a: Seq<u8>, b: Seq<u8>, c: Seq<u8>)
    ensures
        is_under(a, a),
        is_under(a, b) && is_under(b, a) ==> components(a) == components(b),
        is_under(a, b) && is_under(b, c) ==> is_under(a, c),
{
    let (x, y, z) = (components(a), components(b), components(c));
    assert(x.subrange(0, x.len() as int) =~= x);
    if is_under(a, b) && is_under(b, a) {
        assert(x =~= y);
    }
    if is_under(a, b) && is_under(b, c) {
        assert(x.subrange(0, z.len() as int) =~= y.subrange(0, z.len() as int));
    }
}

/// Spans counted in machine words, as spans.
spec fn as_spans(found: Seq<(usize, usize)>) -> Seq<(int, int)> {
    found.map_values(|p: (usize, usize)| (p.0 as int, p.1 as int))
}

/// A path lies under another where its components are those of the other and then more, or
/// no more; what is left of it there ends with its last component.
pub proof fn law_paths_under_go_on(s: Seq<u8>, base: Seq<u8>, more: Seq<Seq<u8>>)
    ensures
        components(s) == components(base) + more ==> is_under(s, base) && components(
            stripped(s, base)->0,
        ) == more,
        stripped(s, base) is Some <==> is_under(s, base),
        is_under(s, base) ==> components(s) == components(base) + components(s).skip(
            components(base).len() as int,
        ),
        stripped(s, base) matches Some(rest) ==> components(rest).len() > 0 ==> components(
            rest,
        ).last().is_suffix_of(rest),
        stripped(s, base) matches Some(rest) ==> components(rest).len() == 0 ==> rest.len() == 0,
{
    let n = components(base).len() as int;
    lemma_spans(s);
    if components(s) == components(base) + more {
        assert(components(s).subrange(0, n) =~= components(base));
        assert(components(s).skip(n) =~= more);
        lemma_from_component(s, n);
    }
    if is_under(s, base) {
        assert(components(s).subrange(0, n) == components(base));
        assert(components(base) + components(s).skip(n) =~= components(s));
        lemma_from_component(s, n);
        let rest = stripped(s, base)->0;
        if n < spans(s).len() {
            let (from, to) = spans(s).last();
            let last = components(rest).last();
            assert(last == s.subrange(from, to));
            assert(spans(s)[n].0 <= from);
            assert(rest.subrange(rest.len() - last.len(), rest.len() as int) =~= last);
        }
    }
}

/// What is left behind `base` is spelled as it was put there, where it starts and ends
/// with a name.
pub proof fn law_rest_keeps_its_spelling(base: Seq<u8>, tail: Seq<u8>)
    requires
        base.len() > 0,
        tail.len() > 0,
        tail[0] != SLASH,
        tail.last() != SLASH,
        components(tail)[0] != seq![DOT],
        last_end(tail) == tail.len(),
    ensures
        stripped(joined(base, tail), base) == Some(tail),
{
    law_join_then_strip(base, tail);
    lemma_tail_of_joined(base, tail);
}

/// The root and the empty path have no parent, and every other path has one: the bytes
/// before its last component, which end with the component before that.
pub proof fn law_parents_are_starts(s: Seq<u8>)
    ensures
        parent_of(s) is None <==> components(s).len() == 0 || components(s) == seq![seq![SLASH]],
        parent_of(s) matches Some(parent) ==> parent.is_prefix_of(s),
        parent_of(s) matches Some(parent) ==> components(parent).len() > 0 ==> components(
            parent,
        ).last().is_suffix_of(parent),
        parent_of(s) matches Some(parent) ==> components(parent).len() == 0 ==> parent.len() == 0,
{
    lemma_spans(s);
    let n = spans(s).len() as int;
    if n > 0 {
        let (a, b) = spans(s)[0];
        if is_absolute(s) {
            assert(components(s)[0] =~= seq![SLASH]);
            if n == 1 {
                assert(components(s) =~= seq![seq![SLASH]]);
            }
        } else if components(s) == seq![seq![SLASH]] {
            assert(components(s)[0] == s.subrange(a, b));
            assert(s.subrange(a, b)[0] == SLASH);
            assert(s[0] == SLASH);
        }
        if let Some(parent) = parent_of(s) {
            assert(s.subrange(0, parent.len() as int) =~= parent);
            law_parent_drops_last(s);
            if n > 1 {
                let (from, to) = spans(s)[n - 2];
                let last = components(parent).last();
                assert(last == s.subrange(from, to));
                assert(parent.subrange(parent.len() - last.len(), parent.len() as int) =~= last);
            }
        }
    }
}

/// The name of a path is its last component, unless that is the root, `.` or `..`.
pub proof fn law_names_are_last_components(s: Seq<u8>)
    ensures
        name_of(s) matches Some(name) ==> components(s).len() > 0 && components(s).last() == name,
        name_of(s) is None <==> components(s).len() == 0 || components(s).last() == seq![47u8]
            || components(s).last() == seq![46u8] || components(s).last() == seq![46u8, 46u8],
{
}

/// An extension is what stands behind the last dot in a name, unless that dot starts the
/// name. It is replaced; where there is none, the new one is put behind the name.
pub proof fn law_extensions_are_replaced(
    base: Seq<u8>,
    stem: Seq<u8>,
    old_extension: Seq<u8>,
    extension: Seq<u8>,
)
    requires
        base.len() > 0,
        stem.len() > 0,
        !stem.contains(SLASH),
        !old_extension.contains(SLASH),
        !old_extension.contains(DOT),
    ensures
        stem != seq![DOT] ==> with_extension(
            joined(base, stem + seq![DOT] + old_extension),
            extension,
        ) == joined(base, stem) + seq![DOT] + extension,
        !stem.subrange(1, stem.len() as int).contains(DOT) && stem != seq![DOT] ==> with_extension(
            joined(base, stem),
            extension,
        ) == joined(base, stem) + seq![DOT] + extension,
{
    let name = stem + seq![DOT] + old_extension;
    let n = stem.len() as int;
    assert forall|i: int| 0 <= i < name.len() implies name[i] != SLASH by {
        if i < n {
            assert(stem.contains(stem[i]));
        } else if i > n {
            assert(old_extension.contains(old_extension[i - n - 1]));
        }
    }
    assert forall|i: int| n < i < name.len() implies name[i] != DOT by {
        assert(old_extension.contains(old_extension[i - n - 1]));
    }
    assert(stem[0] != SLASH) by {
        assert(stem.contains(stem[0]));
    }
    if stem != seq![DOT] {
        assert(name[n] == DOT);
        lemma_stem_end(name, n, name.len() - 1);
        assert(name != seq![DOT, DOT]) by {
            if name == seq![DOT, DOT] {
                assert(n == 1);
                assert(stem[0] == name[0]);
                assert(stem =~= seq![DOT]);
            }
        }
        lemma_name_of_joined(base, name);
        let s = joined(base, name);
        assert(s.take(s.len() - name.len() + n) =~= joined(base, stem));
        assert(joined(base, stem).push(DOT) =~= joined(base, stem) + seq![DOT]);
        if !stem.subrange(1, n).contains(DOT) {
            assert forall|i: int| 0 < i < n implies stem[i] != DOT by {
                assert(stem.subrange(1, n)[i - 1] == stem[i]);
            }
            lemma_no_stem_end(stem, n - 1);
            lemma_name_of_joined(base, stem);
            let t = joined(base, stem);
            assert(t.take(t.len() as int) =~= t);
        }
    }
}

proof fn lemma_stem_end(name: Seq<u8>, n: int, k: int)
    requires
        0 < n <= k < name.len(),
        name[n] == DOT,
        forall|i: int| n < i < name.len() ==> name[i] != DOT,
    ensures
        stem_end(name, k) == n,
    decreases k,
{
    if k > n {
        lemma_stem_end(name, n, k - 1);
    }
}

proof fn lemma_no_stem_end(name: Seq<u8>, k: int)
    requires
        k < name.len(),
        forall|i: int| 0 < i < name.len() ==> name[i] != DOT,
    ensures
        stem_end(name, k) == name.len(),
    decreases k,
{
    if k > 0 {
        lemma_no_stem_end(name, k - 1);
    }
}

/// A name put behind a path is the name of the two joined, and its last bytes.
proof fn lemma_name_of_joined(base: Seq<u8>, name: Seq<u8>)
    requires
        base.len() > 0,
        name.len() > 0,
        forall|i: int| 0 <= i < name.len() ==> name[i] != SLASH,
        name != seq![DOT],
        name != seq![DOT, DOT],
    ensures
        name_of(joined(base, name)) == Some(name),
        spans(joined(base, name)).last().0 == joined(base, name).len() - name.len(),
{
    assert(!name.contains(SLASH));
    law_paths_are_read_piece_by_piece(base, name);
    lemma_single_component(name);
    lemma_joined(base, name);
    assert(components(name)[0] == name);
    lemma_spans(name);
    assert(name.subrange(spans(name)[0].0, spans(name)[0].1).len() == name.len());
    assert(last_end(name) == name.len());
    lemma_tail_of_joined(base, name);
    let s = joined(base, name);
    assert(components(s).last() == name);
    assert(name[0] != SLASH);
    assert(seq![SLASH][0] == SLASH);
}

/// Two paths are equal where they have the same components.
pub proof fn law_paths_are_equal_by_their_components(a: FsPath, b: FsPath)
    ensures
        vstd::std_specs::cmp::PartialEqSpec::eq_spec(&a, &b) <==> components(a@) == components(b@),
{
}

} // verus!
