//! Telling each change only once within a window of time.

use vstd::prelude::*;

use crate::clock::Clock;
use crate::components::components;
use crate::fs_path::FsPath;
use crate::protocol::EventType;
use crate::text::same_text;
use crate::views::{lemma_filter_keeps, lemma_filter_leaves, option_view};

verus! {

/// What makes two events the same.
#[derive(Debug)]
pub struct DedupKey {
    pub folder: FsPath,
    pub event_type: EventType,
    pub path: Option<FsPath>,
    pub git_path: Option<String>,
}

/// A key, with its paths as components.
pub struct DedupKeyView {
    pub folder: Seq<Seq<u8>>,
    pub event_type: EventType,
    pub path: Option<Seq<Seq<u8>>>,
    pub git_path: Option<Seq<char>>,
}

/// The components of a path, where there is one.
pub open spec fn option_components(path: Option<FsPath>) -> Option<Seq<Seq<u8>>> {
    match path {
        Some(p) => Some(components(p@)),
        None => None,
    }
}

impl View for DedupKey {
    type V = DedupKeyView;

    open spec fn view(&self) -> DedupKeyView {
        DedupKeyView {
            folder: components(self.folder@),
            event_type: self.event_type,
            path: option_components(self.path),
            git_path: option_view(self.git_path),
        }
    }
}

impl DedupKey {
    /// Whether two keys are the same.
    pub fn same_key(&self, other: &DedupKey) -> (same: bool)
        ensures
            same == (self@ == other@),
            same <==> (components(self.folder@) == components(other.folder@) && self.event_type
                == other.event_type && (match (self.path, other.path) {
                (Some(a), Some(b)) => components(a@) == components(b@),
                (None, None) => true,
                _ => false,
            }) && (match (self.git_path, other.git_path) {
                (Some(a), Some(b)) => a@ == b@,
                (None, None) => true,
                _ => false,
            })),
    {
        let same_path = match (&self.path, &other.path) {
            (Some(a), Some(b)) => *a == *b,
            (None, None) => true,
            _ => false,
        };
        let same_git_path = match (&self.git_path, &other.git_path) {
            (Some(a), Some(b)) => same_text(a.as_str(), b.as_str()),
            (None, None) => true,
            _ => false,
        };
        self.event_type == other.event_type && same_path && same_git_path && self.folder
            == other.folder
    }
}

/// The window, and the keys that were let through with the times when they were.
pub struct DeduperView {
    pub window: u128,
    pub seen: Seq<(DedupKeyView, u128)>,
}

/// How much time has passed; none where the clock has gone back.
pub open spec fn age(now: u128, then: u128) -> int {
    if now > then {
        now - then
    } else {
        0
    }
}

/// Whether the key is among those seen.
pub open spec fn knows(seen: Seq<(DedupKeyView, u128)>, key: DedupKeyView) -> bool {
    exists|i: int| 0 <= i < seen.len() && (#[trigger] seen[i]).0 == key
}

impl DeduperView {
    /// What was let through no longer ago than the window.
    pub open spec fn recent(self, now: u128) -> Seq<(DedupKeyView, u128)> {
        self.seen.filter(|entry: (DedupKeyView, u128)| age(now, entry.1) <= self.window)
    }

    /// Whether the key is let through.
    pub open spec fn emits(self, key: DedupKeyView, now: u128) -> bool {
        !knows(self.recent(now), key)
    }

    /// The state once the key was asked for: what is too old is forgotten, and the
    /// key is remembered where it was let through.
    pub open spec fn after(self, key: DedupKeyView, now: u128) -> DeduperView {
        DeduperView {
            window: self.window,
            seen: if self.emits(key, now) {
                self.recent(now).push((key, now))
            } else {
                self.recent(now)
            },
        }
    }

    /// The state once all the keys were asked for, in order.
    pub open spec fn after_all(self, asked: Seq<(DedupKeyView, u128)>) -> DeduperView
        decreases asked.len(),
    {
        if asked.len() == 0 {
            self
        } else {
            self.after_all(asked.drop_last()).after(asked.last().0, asked.last().1)
        }
    }

    /// No key is remembered twice.
    pub open spec fn wf(self) -> bool {
        forall|i: int, j: int|
            0 <= i < j < self.seen.len() ==> (#[trigger] self.seen[i]).0 != (#[trigger] self.seen[j]).0
    }
}

/// Lets each key through once within a window of time.
#[derive(Debug)]
pub struct Deduper {
    window: u128,
    clock: Clock,
    seen: Vec<(DedupKey, u128)>,
}

/// Remembered keys by their views.
pub open spec fn seen_view(seen: Seq<(DedupKey, u128)>) -> Seq<(DedupKeyView, u128)> {
    seen.map_values(|entry: (DedupKey, u128)| (entry.0@, entry.1))
}

impl View for Deduper {
    type V = DeduperView;

    closed spec fn view(&self) -> DeduperView {
        DeduperView { window: self.window, seen: seen_view(self.seen@) }
    }
}

impl Deduper {
    /// A deduper that has seen nothing yet; the window is in nanoseconds.
    pub fn new(window: u128) -> (deduper: Deduper)
        ensures
            deduper@ == (DeduperView { window, seen: Seq::empty() }),
            deduper@.wf(),
    {
        let deduper = Deduper { window, clock: Clock::start(), seen: Vec::new() };
        assert(seen_view(deduper.seen@) =~= Seq::empty());
        deduper
    }

    /// The clock that the deduper goes by.
    pub closed spec fn goes_by(&self) -> Clock {
        self.clock
    }

    /// The clock that the deduper goes by.
    pub fn clock(&self) -> (clock: &Clock)
        ensures
            *clock == self.goes_by(),
    {
        &self.clock
    }

    /// Forgets what was let through longer ago than the window.
    fn forget(&mut self, now: u128)
        ensures
            final(self)@.window == old(self)@.window,
            final(self)@.seen == old(self)@.recent(now),
            final(self).goes_by() == old(self).goes_by(),
    {
        let ghost keep = |entry: (DedupKeyView, u128)| age(now, entry.1) <= self@.window;
        let ghost all = self@.seen;
        let window = self.window;
        let mut rest: Vec<(DedupKey, u128)> = Vec::new();
        std::mem::swap(&mut self.seen, &mut rest);
        let mut kept: Vec<(DedupKey, u128)> = Vec::new();
        proof {
            reveal(Seq::filter);
            assert(seen_view(kept@) =~= all.take(0).filter(keep));
        }
        for entry in it: rest
            invariant
                all == seen_view(it.seq()),
                keep == (|entry: (DedupKeyView, u128)| age(now, entry.1) <= window),
                seen_view(kept@) == all.take(it.index()).filter(keep),
        {
            proof {
                reveal(Seq::filter);
                assert(all.take(it.index() + 1).drop_last() =~= all.take(it.index()));
                assert(all.take(it.index() + 1).last() == (entry.0@, entry.1));
            }
            let ghost before = kept@;
            let passed: u128 = if now > entry.1 {
                now - entry.1
            } else {
                0
            };
            if passed <= window {
                kept.push(entry);
                assert(seen_view(kept@) =~= seen_view(before).push((entry.0@, entry.1)));
            }
        }
        assert(all.take(all.len() as int) =~= all);
        self.seen = kept;
    }

    /// Whether the key is among those remembered.
    fn is_known(&self, key: &DedupKey) -> (yes: bool)
        ensures
            yes == knows(self@.seen, key@),
    {
        let ghost all = self@.seen;
        let mut i: usize = 0;
        while i < self.seen.len()
            invariant
                i <= self.seen@.len(),
                all == seen_view(self.seen@),
                forall|k: int| 0 <= k < i ==> (#[trigger] all[k]).0 != key@,
            decreases self.seen@.len() - i,
        {
            assert(all[i as int].0 == self.seen@[i as int].0@);
            if self.seen[i].0.same_key(key) {
                return true;
            }
            i += 1;
        }
        false
    }

    /// Whether the key is let through at the given time.
    pub fn should_emit_at(&mut self, key: DedupKey, now: u128) -> (emit: bool)
        ensures
            emit == old(self)@.emits(key@, now),
            final(self)@ == old(self)@.after(key@, now),
            final(self).goes_by() == old(self).goes_by(),
    {
        self.forget(now);
        if self.is_known(&key) {
            return false;
        }
        let ghost before = self.seen@;
        let ghost k = key@;
        self.seen.push((key, now));
        assert(seen_view(self.seen@) =~= seen_view(before).push((k, now)));
        true
    }

    /// Whether the key is let through now.
    pub fn should_emit(&mut self, key: DedupKey) -> (emit: bool)
        ensures
            exists|now: u128|
                emit == old(self)@.emits(key@, now) && final(self)@ == #[trigger] old(self)@.after(
                    key@,
                    now,
                ),
            final(self).goes_by() == old(self).goes_by(),
    {
        let now = self.clock.read().nanos;
        self.should_emit_at(key, now)
    }
}

/// What is recent was seen, and what was seen within the window is recent.
proof fn lemma_recent(d: DeduperView, now: u128)
    ensures
        forall|i: int|
            0 <= i < d.recent(now).len() ==> d.seen.contains(#[trigger] d.recent(now)[i]) && age(
                now,
                d.recent(now)[i].1,
            ) <= d.window,
        forall|i: int|
            0 <= i < d.seen.len() && age(now, (#[trigger] d.seen[i]).1) <= d.window ==> d.recent(
                now,
            ).contains(d.seen[i]),
{
    let keep = |entry: (DedupKeyView, u128)| age(now, entry.1) <= d.window;
    assert(d.recent(now) == d.seen.filter(keep));
    lemma_filter_leaves(d.seen, keep);
    lemma_filter_keeps(d.seen, keep);
    assert forall|i: int|
        0 <= i < d.seen.len() && age(now, (#[trigger] d.seen[i]).1) <= d.window implies d.recent(
        now,
    ).contains(d.seen[i]) by {
        assert(keep(d.seen[i]));
    }
}

proof fn lemma_recent_keeps_wf(d: DeduperView, now: u128)
    requires
        d.wf(),
    ensures
        (DeduperView { window: d.window, seen: d.recent(now) }).wf(),
    decreases d.seen.len(),
{
    reveal(Seq::filter);
    if d.seen.len() > 0 {
        let less = DeduperView { window: d.window, seen: d.seen.drop_last() };
        assert(less.wf()) by {
            assert forall|i: int, j: int| 0 <= i < j < less.seen.len() implies (
            #[trigger] less.seen[i]).0 != (#[trigger] less.seen[j]).0 by {
                assert(d.seen[i].0 != d.seen[j].0);
            }
        }
        lemma_recent_keeps_wf(less, now);
        lemma_recent(less, now);
        let r = less.recent(now);
        assert forall|i: int| 0 <= i < r.len() implies (#[trigger] r[i]).0 != d.seen.last().0 by {
            let k = choose|k: int| 0 <= k < less.seen.len() && less.seen[k] == r[i];
            assert(d.seen[k].0 != d.seen[d.seen.len() - 1].0);
        }
        let keep = |entry: (DedupKeyView, u128)| age(now, entry.1) <= d.window;
        assert(r == d.seen.drop_last().filter(keep));
        let full = DeduperView { window: d.window, seen: d.recent(now) };
        let half = DeduperView { window: d.window, seen: r };
        assert(half.wf());
        if keep(d.seen.last()) {
            assert(full.seen == r.push(d.seen.last()));
            assert forall|i: int, j: int| 0 <= i < j < full.seen.len() implies (
            #[trigger] full.seen[i]).0 != (#[trigger] full.seen[j]).0 by {
                assert(full.seen[i] == r[i]);
                if j < r.len() {
                    assert(full.seen[j] == r[j]);
                    assert(half.seen[i].0 != half.seen[j].0);
                }
            }
        } else {
            assert(full.seen == r);
        }
    }
}

/// Asking for a key never makes the deduper remember a key twice, and what it
/// remembers afterwards is no older than the window.
pub proof fn law_deduper_stays_well_formed(d: DeduperView, key: DedupKeyView, now: u128)
    requires
        d.wf(),
    ensures
        d.after(key, now).wf(),
        forall|i: int|
            0 <= i < d.after(key, now).seen.len() ==> now <= (#[trigger] d.after(
                key,
                now,
            ).seen[i]).1 + d.window,
{
    lemma_recent_keeps_wf(d, now);
    lemma_recent(d, now);
    if d.emits(key, now) {
        let r = d.recent(now);
        let half = DeduperView { window: d.window, seen: r };
        let full = d.after(key, now);
        assert forall|i: int, j: int| 0 <= i < j < full.seen.len() implies (
        #[trigger] full.seen[i]).0 != (#[trigger] full.seen[j]).0 by {
            assert(full.seen[i] == r[i]);
            if j < r.len() {
                assert(full.seen[j] == r[j]);
                assert(half.seen[i].0 != half.seen[j].0);
            } else {
                assert(r[i].0 != key);
            }
        }
    }
}

/// After a key was let through, it is known as long as the window lasts, whatever
/// else is asked for meanwhile.
proof fn lemma_remembered(d: DeduperView, key: DedupKeyView, then: u128, asked: Seq<(DedupKeyView, u128)>)
    requires
        d.seen.contains((key, then)),
        forall|i: int| 0 <= i < asked.len() ==> age((#[trigger] asked[i]).1, then) <= d.window,
    ensures
        d.after_all(asked).seen.contains((key, then)),
        d.after_all(asked).window == d.window,
    decreases asked.len(),
{
    if asked.len() > 0 {
        let less = asked.drop_last();
        assert forall|i: int| 0 <= i < less.len() implies age((#[trigger] less[i]).1, then)
            <= d.window by {
            assert(less[i] == asked[i]);
        }
        lemma_remembered(d, key, then, less);
        let mid = d.after_all(less);
        let (k, now) = asked.last();
        lemma_recent(mid, now);
        let i = choose|i: int| 0 <= i < mid.seen.len() && mid.seen[i] == (key, then);
        assert(age(asked[asked.len() - 1].1, then) <= d.window);
        assert(mid.recent(now).contains(mid.seen[i]));
        let j = choose|j: int| 0 <= j < mid.recent(now).len() && mid.recent(now)[j] == (key, then);
        assert(mid.after(k, now).seen[j] == (key, then));
    }
}

/// Within the window after a key was let through it is not let through again,
/// whatever was asked for in between.
pub proof fn law_duplicates_within_window_are_dropped(
    d: DeduperView,
    key: DedupKeyView,
    then: u128,
    asked: Seq<(DedupKeyView, u128)>,
    now: u128,
)
    requires
        d.emits(key, then),
        forall|i: int| 0 <= i < asked.len() ==> (#[trigger] asked[i]).1 <= then + d.window,
        now <= then + d.window,
    ensures
        !d.after(key, then).after_all(asked).emits(key, now),
{
    let first = d.after(key, then);
    assert(first.seen[first.seen.len() - 1] == (key, then));
    lemma_remembered(first, key, then, asked);
    let last = first.after_all(asked);
    lemma_recent(last, now);
    let i = choose|i: int| 0 <= i < last.seen.len() && last.seen[i] == (key, then);
    assert(last.recent(now).contains(last.seen[i]));
    let j = choose|j: int| 0 <= j < last.recent(now).len() && last.recent(now)[j] == (key, then);
    assert(last.recent(now)[j].0 == key);
}

/// A key is let through when every time it was last let through lies further back
/// than the window.
pub proof fn law_stale_keys_are_let_through(d: DeduperView, key: DedupKeyView, now: u128)
    requires
        forall|i: int|
            0 <= i < d.seen.len() && (#[trigger] d.seen[i]).0 == key ==> now > d.seen[i].1
                + d.window,
    ensures
        d.emits(key, now),
{
    lemma_recent(d, now);
    if knows(d.recent(now), key) {
        let i = choose|i: int| 0 <= i < d.recent(now).len() && (#[trigger] d.recent(now)[i]).0 == key;
        assert(d.seen.contains(d.recent(now)[i]));
        let k = choose|k: int| 0 <= k < d.seen.len() && d.seen[k] == d.recent(now)[i];
        assert(d.seen[k].0 == key);
    }
}

/// Whether none of those asked for lets the key through: each is another key or is
/// dropped.
pub open spec fn let_by(d: DeduperView, asked: Seq<(DedupKeyView, u128)>, key: DedupKeyView) -> bool {
    forall|i: int|
        0 <= i < asked.len() && (#[trigger] asked[i]).0 == key ==> !d.after_all(
            asked.take(i),
        ).emits(key, asked[i].1)
}

/// Whatever else is asked for, the time of a key is the one when it was last let through.
proof fn lemma_one_time(
    d: DeduperView,
    key: DedupKeyView,
    then: u128,
    asked: Seq<(DedupKeyView, u128)>,
)
    requires
        let_by(d, asked, key),
        forall|i: int| 0 <= i < d.seen.len() && (#[trigger] d.seen[i]).0 == key ==> d.seen[i].1 == then,
    ensures
        d.after_all(asked).window == d.window,
        forall|i: int|
            0 <= i < d.after_all(asked).seen.len() && (#[trigger] d.after_all(asked).seen[i]).0 == key
                ==> d.after_all(asked).seen[i].1 == then,
    decreases asked.len(),
{
    if asked.len() > 0 {
        let less = asked.drop_last();
        let n = less.len() as int;
        assert(asked.take(n) =~= less);
        assert forall|i: int| 0 <= i < less.len() && (#[trigger] less[i]).0 == key implies !d.after_all(
            less.take(i),
        ).emits(key, less[i].1) by {
            assert(asked[i] == less[i]);
            assert(asked.take(i) =~= less.take(i));
        }
        lemma_one_time(d, key, then, less);
        let mid = d.after_all(less);
        let (k, now) = asked.last();
        let end = d.after_all(asked);
        lemma_recent(mid, now);
        assert(asked[n].0 == key ==> !mid.emits(key, asked[n].1));
        assert forall|i: int| 0 <= i < end.seen.len() && (#[trigger] end.seen[i]).0 == key implies
        end.seen[i].1 == then by {
            assert(end.seen[i] == mid.recent(now)[i]);
            let j = choose|j: int| 0 <= j < mid.seen.len() && mid.seen[j] == mid.recent(now)[i];
            assert(mid.seen[j].0 == key);
        }
    }
}

/// Duplicates that are dropped do not make the window last longer, nor do other keys:
/// after a key was let through, and whatever was asked for since without its being let
/// through again, it is let through once the window after that time is over, and not
/// before, as long as the clock does not go back.
pub proof fn law_dropped_duplicates_do_not_extend_the_window(
    d: DeduperView,
    key: DedupKeyView,
    then: u128,
    asked: Seq<(DedupKeyView, u128)>,
    now: u128,
)
    requires
        d.emits(key, then),
        let_by(d.after(key, then), asked, key),
    ensures
        now > then + d.window ==> d.after(key, then).after_all(asked).emits(key, now),
        (forall|i: int| 0 <= i < asked.len() ==> (#[trigger] asked[i]).1 <= now) ==> (d.after(
            key,
            then,
        ).after_all(asked).emits(key, now) <==> now > then + d.window),
{
    let first = d.after(key, then);
    let r = d.recent(then);
    assert forall|i: int| 0 <= i < first.seen.len() && (#[trigger] first.seen[i]).0 == key implies
    first.seen[i].1 == then by {
        if i < r.len() {
            assert(r[i].0 == key);
        }
    }
    lemma_one_time(first, key, then, asked);
    if now > then + d.window {
        law_stale_keys_are_let_through(first.after_all(asked), key, now);
    } else if forall|i: int| 0 <= i < asked.len() ==> (#[trigger] asked[i]).1 <= now {
        law_duplicates_within_window_are_dropped(d, key, then, asked, now);
    }
}

/// Two keys are the same where they are for the same folder, the same type of event and
/// the same path, and only there.
pub proof fn law_keys_are_what_they_are_made_of(a: DedupKey, b: DedupKey)
    ensures
        a@ == b@ <==> {
            &&& components(a.folder@) == components(b.folder@)
            &&& a.event_type == b.event_type
            &&& (match (a.path, b.path) {
                (Some(p), Some(q)) => components(p@) == components(q@),
                (None, None) => true,
                _ => false,
            })
            &&& (match (a.git_path, b.git_path) {
                (Some(p), Some(q)) => p@ == q@,
                (None, None) => true,
                _ => false,
            })
        },
{
}

/// What is remembered after a key was asked for was remembered before, or is the key
/// itself, let through at that time.
pub proof fn law_only_what_is_let_through_is_remembered(
    d: DeduperView,
    key: DedupKeyView,
    now: u128,
    entry: (DedupKeyView, u128),
)
    ensures
        d.after(key, now).window == d.window,
        d.emits(key, now) ==> d.after(key, now).seen.contains((key, now)),
        d.after(key, now).seen.contains(entry) ==> d.seen.contains(entry) || (entry == (key, now)
            && d.emits(key, now)),
        d.seen.contains(entry) && now <= entry.1 + d.window ==> d.after(key, now).seen.contains(
            entry,
        ),
{
    lemma_recent(d, now);
    let r = d.recent(now);
    let s = d.after(key, now).seen;
    if d.emits(key, now) {
        assert(s[s.len() - 1] == (key, now));
    }
    if s.contains(entry) {
        let i = choose|i: int| 0 <= i < s.len() && s[i] == entry;
        if i < r.len() {
            assert(r[i] == entry);
            assert(d.seen.contains(r[i]));
        }
    }
    if d.seen.contains(entry) && now <= entry.1 + d.window {
        let i = choose|i: int| 0 <= i < d.seen.len() && d.seen[i] == entry;
        assert(r.contains(d.seen[i]));
        let k = choose|k: int| 0 <= k < r.len() && r[k] == entry;
        assert(s[k] == entry);
    }
}

/// Asking for one key does not change whether another is let through.
pub proof fn law_keys_do_not_disturb_each_other(
    d: DeduperView,
    key: DedupKeyView,
    then: u128,
    other: DedupKeyView,
    now: u128,
)
    requires
        key != other,
        then <= now,
    ensures
        d.after(key, then).emits(other, now) == d.emits(other, now),
{
    let after = d.after(key, then);
    lemma_recent(d, now);
    lemma_recent(after, now);
    if !d.emits(other, now) {
        let r = d.recent(now);
        let i = choose|i: int| 0 <= i < r.len() && (#[trigger] r[i]).0 == other;
        let entry = r[i];
        assert(d.seen.contains(r[i]));
        law_only_what_is_let_through_is_remembered(d, key, then, entry);
        let k = choose|k: int| 0 <= k < after.seen.len() && after.seen[k] == entry;
        assert(after.recent(now).contains(after.seen[k]));
        let m = choose|m: int| 0 <= m < after.recent(now).len() && after.recent(now)[m] == entry;
        assert(after.recent(now)[m].0 == other);
    }
    if !after.emits(other, now) {
        let r = after.recent(now);
        let i = choose|i: int| 0 <= i < r.len() && (#[trigger] r[i]).0 == other;
        let entry = r[i];
        assert(after.seen.contains(r[i]));
        law_only_what_is_let_through_is_remembered(d, key, then, entry);
        let k = choose|k: int| 0 <= k < d.seen.len() && d.seen[k] == entry;
        assert(d.recent(now).contains(d.seen[k]));
        let m = choose|m: int| 0 <= m < d.recent(now).len() && d.recent(now)[m] == entry;
        assert(d.recent(now)[m].0 == other);
    }
}

/// A key is dropped where it was let through no longer ago than the window.
pub proof fn law_recent_keys_are_dropped(d: DeduperView, key: DedupKeyView, now: u128)
    requires
        exists|i: int|
            0 <= i < d.seen.len() && (#[trigger] d.seen[i]).0 == key && now <= d.seen[i].1
                + d.window,
    ensures
        !d.emits(key, now),
{
    lemma_recent(d, now);
    let i = choose|i: int|
        0 <= i < d.seen.len() && (#[trigger] d.seen[i]).0 == key && now <= d.seen[i].1 + d.window;
    assert(d.recent(now).contains(d.seen[i]));
    let k = choose|k: int| 0 <= k < d.recent(now).len() && d.recent(now)[k] == d.seen[i];
    assert(d.recent(now)[k].0 == key);
}

} // verus!
