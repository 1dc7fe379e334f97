//! The order in which paths are listed.

use vstd::prelude::*;

use crate::components::{components, DOT, SLASH};
use crate::fs_path::FsPath;

verus! {

/// Byte strings in the order of a dictionary.
pub open spec fn bytes_before(a: Seq<u8>, b: Seq<u8>) -> bool
    decreases a.len(),
{
    if b.len() == 0 {
        false
    } else if a.len() == 0 {
        true
    } else if a[0] == b[0] {
        bytes_before(a.skip(1), b.skip(1))
    } else {
        a[0] < b[0]
    }
}

/// The root comes before `.`, that before `..`, and that before all names.
pub open spec fn rank(c: Seq<u8>) -> int {
    if c == seq![SLASH] {
        0
    } else if c == seq![DOT] {
        1
    } else if c == seq![DOT, DOT] {
        2
    } else {
        3
    }
}

/// Components by rank, and names among themselves by their bytes.
pub open spec fn component_before(a: Seq<u8>, b: Seq<u8>) -> bool {
    rank(a) < rank(b) || (rank(a) == rank(b) && bytes_before(a, b))
}

/// Lists of components in the order of a dictionary.
pub open spec fn listed_before(a: Seq<Seq<u8>>, b: Seq<Seq<u8>>) -> bool
    decreases a.len(),
{
    if b.len() == 0 {
        false
    } else if a.len() == 0 {
        true
    } else if a[0] == b[0] {
        listed_before(a.skip(1), b.skip(1))
    } else {
        component_before(a[0], b[0])
    }
}

proof fn lemma_bytes_before_total(a: Seq<u8>, b: Seq<u8>)
    ensures
        !(bytes_before(a, b) && bytes_before(b, a)),
        a != b ==> bytes_before(a, b) || bytes_before(b, a),
        !bytes_before(a, a),
    decreases a.len(),
{
    if a.len() > 0 {
        lemma_bytes_before_total(a.skip(1), a.skip(1));
    }
    if a.len() == 0 && b.len() == 0 {
        assert(a =~= b);
    } else if a.len() > 0 && b.len() > 0 && a[0] == b[0] {
        lemma_bytes_before_total(a.skip(1), b.skip(1));
        if a.skip(1) == b.skip(1) {
            assert(a =~= seq![a[0]] + a.skip(1));
            assert(b =~= seq![b[0]] + b.skip(1));
        }
    }
}

proof fn lemma_bytes_before_transitive(a: Seq<u8>, b: Seq<u8>, c: Seq<u8>)
    requires
        bytes_before(a, b),
        bytes_before(b, c),
    ensures
        bytes_before(a, c),
    decreases a.len(),
{
    if a.len() > 0 && a[0] == b[0] && b[0] == c[0] {
        lemma_bytes_before_transitive(a.skip(1), b.skip(1), c.skip(1));
    }
}

proof fn lemma_component_before(a: Seq<u8>, b: Seq<u8>, c: Seq<u8>)
    ensures
        !component_before(a, a),
        !(component_before(a, b) && component_before(b, a)),
        a != b ==> component_before(a, b) || component_before(b, a),
        component_before(a, b) && component_before(b, c) ==> component_before(a, c),
{
    lemma_bytes_before_total(a, b);
    lemma_bytes_before_total(a, a);
    if bytes_before(a, b) && bytes_before(b, c) {
        lemma_bytes_before_transitive(a, b, c);
    }
}

/// The order of the listing is total on components: of two different paths one
/// comes first, and never both.
pub proof fn law_listing_is_total(a: Seq<Seq<u8>>, b: Seq<Seq<u8>>)
    ensures
        !listed_before(a, a),
        !(listed_before(a, b) && listed_before(b, a)),
        a != b ==> listed_before(a, b) || listed_before(b, a),
    decreases a.len(),
{
    if a.len() > 0 {
        law_listing_is_total(a.skip(1), a.skip(1));
    }
    if a.len() == 0 && b.len() == 0 {
        assert(a =~= b);
    } else if a.len() > 0 && b.len() > 0 {
        if a[0] == b[0] {
            law_listing_is_total(a.skip(1), b.skip(1));
            if a.skip(1) == b.skip(1) {
                assert(a =~= seq![a[0]] + a.skip(1));
                assert(b =~= seq![b[0]] + b.skip(1));
            }
        } else {
            lemma_component_before(a[0], b[0], a[0]);
        }
    }
}

/// What comes before a path comes before all that follow it.
pub proof fn law_listing_is_transitive(a: Seq<Seq<u8>>, b: Seq<Seq<u8>>, c: Seq<Seq<u8>>)
    requires
        listed_before(a, b),
        listed_before(b, c),
    ensures
        listed_before(a, c),
    decreases a.len(),
{
    if a.len() > 0 {
        lemma_component_before(a[0], b[0], c[0]);
        lemma_component_before(b[0], c[0], a[0]);
        if a[0] == b[0] && b[0] == c[0] {
            law_listing_is_transitive(a.skip(1), b.skip(1), c.skip(1));
        }
    }
}

/// Whether the bytes `a` come before the bytes `b`.
fn is_bytes_before(a: &Vec<u8>, b: &Vec<u8>) -> (yes: bool)
    ensures
        yes == bytes_before(a@, b@),
{
    let mut i: usize = 0;
    assert(a@.skip(0) =~= a@);
    assert(b@.skip(0) =~= b@);
    while i < a.len() && i < b.len()
        invariant
            i <= a@.len(),
            i <= b@.len(),
            bytes_before(a@, b@) == bytes_before(a@.skip(i as int), b@.skip(i as int)),
        decreases a@.len() - i,
    {
        if a[i] != b[i] {
            return a[i] < b[i];
        }
        assert(a@.skip(i as int).skip(1) =~= a@.skip(i + 1));
        assert(b@.skip(i as int).skip(1) =~= b@.skip(i + 1));
        i += 1;
    }
    i < b.len()
}

/// The rank of a component.
fn component_rank(c: &Vec<u8>) -> (r: u8)
    ensures
        r == rank(c@),
{
    proof {
        assert(seq![SLASH][0] == SLASH);
        assert(seq![DOT][0] == DOT);
        assert(seq![DOT, DOT][0] == DOT && seq![DOT, DOT][1] == DOT);
    }
    if c.len() == 1 && c[0] == SLASH {
        assert(c@ =~= seq![SLASH]);
        0
    } else if c.len() == 1 && c[0] == DOT {
        assert(c@ =~= seq![DOT]);
        1
    } else if c.len() == 2 && c[0] == DOT && c[1] == DOT {
        assert(c@ =~= seq![DOT, DOT]);
        2
    } else {
        3
    }
}

/// Whether the component `a` comes before the component `b`.
fn is_component_before(a: &Vec<u8>, b: &Vec<u8>) -> (yes: bool)
    ensures
        yes == component_before(a@, b@),
{
    let ra = component_rank(a);
    let rb = component_rank(b);
    ra < rb || (ra == rb && is_bytes_before(a, b))
}

impl FsPath {
    /// Whether this path is listed before the other one.
    pub fn is_before(&self, other: &FsPath) -> (yes: bool)
        ensures
            yes == listed_before(components(self@), components(other@)),
    {
        let a = self.component_list();
        let b = other.component_list();
        let ghost x = components(self@);
        let ghost y = components(other@);
        let mut i: usize = 0;
        assert(x.skip(0) =~= x);
        assert(y.skip(0) =~= y);
        while i < a.len() && i < b.len()
            invariant
                i <= a@.len() == x.len(),
                i <= b@.len() == y.len(),
                forall|k: int| 0 <= k < x.len() ==> (#[trigger] a@[k])@ == x[k],
                forall|k: int| 0 <= k < y.len() ==> (#[trigger] b@[k])@ == y[k],
                listed_before(x, y) == listed_before(x.skip(i as int), y.skip(i as int)),
                x == components(self@),
                y == components(other@),
            decreases a@.len() - i,
        {
            assert(x.skip(i as int)[0] == a@[i as int]@);
            assert(y.skip(i as int)[0] == b@[i as int]@);
            if is_component_before(&a[i], &b[i]) {
                proof {
                    lemma_component_before(x[i as int], y[i as int], x[i as int]);
                }
                return true;
            }
            if is_component_before(&b[i], &a[i]) {
                proof {
                    lemma_component_before(x[i as int], y[i as int], x[i as int]);
                }
                return false;
            }
            proof {
                lemma_component_before(x[i as int], y[i as int], x[i as int]);
            }
            assert(x.skip(i as int).skip(1) =~= x.skip(i + 1));
            assert(y.skip(i as int).skip(1) =~= y.skip(i + 1));
            i += 1;
        }
        i < b.len()
    }
}

/// A path comes before all that lies under it.
pub proof fn law_folders_come_before_what_is_in_them(a: Seq<Seq<u8>>, b: Seq<Seq<u8>>)
    requires
        b.len() > 0,
    ensures
        listed_before(a, a + b),
    decreases a.len(),
{
    if a.len() > 0 {
        law_folders_come_before_what_is_in_them(a.skip(1), b);
        assert((a + b).skip(1) =~= a.skip(1) + b);
    }
}

/// Behind a common start, two names come in the order of their first bytes that differ.
pub proof fn law_names_come_by_their_bytes(
    start: Seq<Seq<u8>>,
    same: Seq<u8>,
    x: u8,
    y: u8,
    a: Seq<u8>,
    b: Seq<u8>,
    a_rest: Seq<Seq<u8>>,
    b_rest: Seq<Seq<u8>>,
)
    requires
        x < y,
        is_plain_name(same.push(x) + a),
        is_plain_name(same.push(y) + b),
    ensures
        listed_before(
            start + seq![same.push(x) + a] + a_rest,
            start + seq![same.push(y) + b] + b_rest,
        ),
    decreases start.len() + same.len(),
{
    let p = start + seq![same.push(x) + a] + a_rest;
    let q = start + seq![same.push(y) + b] + b_rest;
    if start.len() > 0 {
        law_names_come_by_their_bytes(start.skip(1), same, x, y, a, b, a_rest, b_rest);
        assert(p.skip(1) =~= start.skip(1) + seq![same.push(x) + a] + a_rest);
        assert(q.skip(1) =~= start.skip(1) + seq![same.push(y) + b] + b_rest);
    } else {
        lemma_bytes_differ(same, x, y, a, b);
        assert((same.push(x) + a)[same.len() as int] == x);
        assert((same.push(y) + b)[same.len() as int] == y);
        assert(p[0] == same.push(x) + a);
        assert(q[0] == same.push(y) + b);
    }
}

proof fn lemma_bytes_differ(same: Seq<u8>, x: u8, y: u8, a: Seq<u8>, b: Seq<u8>)
    requires
        x < y,
    ensures
        bytes_before(same.push(x) + a, same.push(y) + b),
    decreases same.len(),
{
    let p = same.push(x) + a;
    let q = same.push(y) + b;
    if same.len() > 0 {
        lemma_bytes_differ(same.skip(1), x, y, a, b);
        assert(p.skip(1) =~= same.skip(1).push(x) + a);
        assert(q.skip(1) =~= same.skip(1).push(y) + b);
    } else {
        assert(p[0] == x && q[0] == y);
    }
}

/// Whether a component is a name, and not the root, `.` or `..`.
pub open spec fn is_plain_name(c: Seq<u8>) -> bool {
    c != seq![47u8] && c != seq![46u8] && c != seq![46u8, 46u8]
}

/// Behind a common start, the root comes before `.`, that before `..`, and that before all
/// names; a name comes before those that go on from it.
pub proof fn law_names_come_last(
    start: Seq<Seq<u8>>,
    name: Seq<u8>,
    more: Seq<u8>,
    a: Seq<Seq<u8>>,
    b: Seq<Seq<u8>>,
)
    requires
        is_plain_name(name),
        is_plain_name(name + more),
        more.len() > 0,
    ensures
        listed_before(start + seq![seq![47u8]] + a, start + seq![seq![46u8]] + b),
        listed_before(start + seq![seq![47u8]] + a, start + seq![seq![46u8, 46u8]] + b),
        listed_before(start + seq![seq![47u8]] + a, start + seq![name] + b),
        listed_before(start + seq![seq![46u8]] + a, start + seq![seq![46u8, 46u8]] + b),
        listed_before(start + seq![seq![46u8]] + a, start + seq![name] + b),
        listed_before(start + seq![seq![46u8, 46u8]] + a, start + seq![name] + b),
        listed_before(start + seq![name] + a, start + seq![name + more] + b),
{
    let root = seq![47u8];
    let dot = seq![46u8];
    let dots = seq![46u8, 46u8];
    assert(root[0] == 47 && dot[0] == 46 && dots.len() == 2);
    assert(root != dot && root != dots && dot != dots);
    lemma_listed_by_component(start, root, dot, a, b);
    lemma_listed_by_component(start, root, dots, a, b);
    lemma_listed_by_component(start, root, name, a, b);
    lemma_listed_by_component(start, dot, dots, a, b);
    lemma_listed_by_component(start, dot, name, a, b);
    lemma_listed_by_component(start, dots, name, a, b);
    lemma_bytes_go_on(name, more);
    assert((name + more).len() > name.len());
    lemma_listed_by_component(start, name, name + more, a, b);
}

proof fn lemma_bytes_go_on(name: Seq<u8>, more: Seq<u8>)
    requires
        more.len() > 0,
    ensures
        bytes_before(name, name + more),
    decreases name.len(),
{
    if name.len() > 0 {
        lemma_bytes_go_on(name.skip(1), more);
        assert((name + more).skip(1) =~= name.skip(1) + more);
    }
}

proof fn lemma_listed_by_component(
    start: Seq<Seq<u8>>,
    x: Seq<u8>,
    y: Seq<u8>,
    a: Seq<Seq<u8>>,
    b: Seq<Seq<u8>>,
)
    requires
        x != y,
        component_before(x, y),
    ensures
        listed_before(start + seq![x] + a, start + seq![y] + b),
    decreases start.len(),
{
    let p = start + seq![x] + a;
    let q = start + seq![y] + b;
    if start.len() > 0 {
        lemma_listed_by_component(start.skip(1), x, y, a, b);
        assert(p.skip(1) =~= start.skip(1) + seq![x] + a);
        assert(q.skip(1) =~= start.skip(1) + seq![y] + b);
    } else {
        assert(p[0] == x && q[0] == y);
    }
}

} // verus!
