//! Entries of a list that were passed over, and why.

use vstd::prelude::*;
use vstd::string::StringExecFns;

use crate::error::{IoError, IoErrorView};
use crate::fs_path::FsPath;
use crate::text::{concat, lossy_chars};

verus! {

/// A path that was passed over, and the error for which it was.
#[derive(Debug)]
pub struct Skipped {
    pub path: FsPath,
    pub error: IoError,
}

/// A path that was passed over, and the error for which it was.
pub struct SkippedView {
    pub path: Seq<u8>,
    pub error: IoErrorView,
}

impl View for Skipped {
    type V = SkippedView;

    open spec fn view(&self) -> SkippedView {
        SkippedView { path: self.path@, error: self.error@ }
    }
}

impl SkippedView {
    /// What is told of the path.
    pub open spec fn text(self) -> Seq<char> {
        "skipping "@ + lossy_chars(self.path) + ": "@ + self.error.message
    }
}

impl Skipped {
    /// What is told of the path.
    pub fn text(&self) -> (text: String)
        ensures
            text@ == self@.text(),
    {
        let mut text = concat("skipping ", self.path.display().as_str());
        text.append(": ");
        text.append(self.error.message.as_str());
        text
    }
}

/// The paths whose outcome is an error, in order, with their errors.
pub open spec fn skipped_of<T>(
    paths: Seq<Seq<u8>>,
    outcomes: Seq<Result<T, IoErrorView>>,
) -> Seq<SkippedView>
    decreases outcomes.len(),
{
    if outcomes.len() == 0 {
        Seq::empty()
    } else {
        let before = skipped_of(paths, outcomes.drop_last());
        match outcomes.last() {
            Ok(_) => before,
            Err(error) => before.push(SkippedView { path: paths[outcomes.len() - 1], error }),
        }
    }
}

/// A path is passed over just where its outcome is an error, with that error.
pub proof fn law_every_failure_is_told<T>(
    paths: Seq<Seq<u8>>,
    outcomes: Seq<Result<T, IoErrorView>>,
    skipped: SkippedView,
)
    ensures
        skipped_of(paths, outcomes).contains(skipped) <==> exists|i: int|
            0 <= i < outcomes.len() && #[trigger] outcomes[i] == Err::<T, IoErrorView>(
                skipped.error,
            ) && paths[i] == skipped.path,
        skipped_of(paths, outcomes).len() <= outcomes.len(),
    decreases outcomes.len(),
{
    if outcomes.len() > 0 {
        let less = outcomes.drop_last();
        let n = less.len() as int;
        law_every_failure_is_told(paths, less, skipped);
        let a = skipped_of(paths, less);
        let b = skipped_of(paths, outcomes);
        if a.contains(skipped) {
            let k = choose|k: int| 0 <= k < a.len() && a[k] == skipped;
            assert(b[k] == skipped);
            let i = choose|i: int|
                0 <= i < less.len() && #[trigger] less[i] == Err::<T, IoErrorView>(skipped.error)
                    && paths[i] == skipped.path;
            assert(outcomes[i] == less[i]);
        } else {
            if b.contains(skipped) {
                let k = choose|k: int| 0 <= k < b.len() && b[k] == skipped;
                if k < a.len() {
                    assert(a[k] == skipped);
                }
                assert(outcomes[n] == Err::<T, IoErrorView>(skipped.error));
            }
            if exists|i: int|
                0 <= i < outcomes.len() && #[trigger] outcomes[i] == Err::<T, IoErrorView>(
                    skipped.error,
                ) && paths[i] == skipped.path {
                let i = choose|i: int|
                    0 <= i < outcomes.len() && #[trigger] outcomes[i] == Err::<T, IoErrorView>(
                        skipped.error,
                    ) && paths[i] == skipped.path;
                if i < n {
                    assert(less[i] == outcomes[i]);
                }
                assert(b[b.len() - 1] == skipped);
            }
        }
    }
}

/// What is told of a path that was passed over names the path and the reason.
pub proof fn law_skipped_paths_are_named(skipped: SkippedView)
    ensures
        skipped.text() == "skipping "@ + lossy_chars(skipped.path) + ": "@ + skipped.error.message,
{
}

/// Paths are passed over in their order.
pub proof fn law_failures_are_told_in_order<T>(
    paths: Seq<Seq<u8>>,
    outcomes: Seq<Result<T, IoErrorView>>,
    more: Seq<Result<T, IoErrorView>>,
)
    ensures
        skipped_of(paths, outcomes).is_prefix_of(skipped_of(paths, outcomes + more)),
    decreases more.len(),
{
    let all = skipped_of(paths, outcomes + more);
    let n = skipped_of(paths, outcomes).len() as int;
    if more.len() == 0 {
        assert(outcomes + more =~= outcomes);
        assert(all.subrange(0, n) =~= skipped_of(paths, outcomes));
    } else {
        law_failures_are_told_in_order(paths, outcomes, more.drop_last());
        assert((outcomes + more).drop_last() =~= outcomes + more.drop_last());
        let less = skipped_of(paths, outcomes + more.drop_last());
        assert(less.subrange(0, n) == skipped_of(paths, outcomes));
        assert(all.subrange(0, n) =~= less.subrange(0, n));
    }
}

} // verus!
