//! Values seen through the views of what they hold.

use vstd::prelude::*;

verus! {

/// A result, with the value or the error in it replaced by its view.
pub open spec fn result_view<T: View, E: View>(r: Result<T, E>) -> Result<T::V, E::V> {
    match r {
        Ok(value) => Ok(value@),
        Err(error) => Err(error@),
    }
}

/// An option, with the value in it replaced by its view.
pub open spec fn option_view<T: View>(o: Option<T>) -> Option<T::V> {
    match o {
        Some(value) => Some(value@),
        None => None,
    }
}

/// A sequence, with each item replaced by its view.
pub open spec fn seq_view<T: View>(s: Seq<T>) -> Seq<T::V> {
    s.map_values(|item: T| item@)
}

/// What a filter leaves of a sequence is in the sequence, and passes the filter.
pub proof fn lemma_filter_leaves<A>(s: Seq<A>, keep: spec_fn(A) -> bool)
    ensures
        forall|i: int|
            0 <= i < s.filter(keep).len() ==> s.contains(#[trigger] s.filter(keep)[i]) && keep(
                s.filter(keep)[i],
            ),
    decreases s.len(),
{
    reveal(Seq::filter);
    if s.len() > 0 {
        let less = s.drop_last();
        lemma_filter_leaves(less, keep);
        assert forall|i: int| 0 <= i < s.filter(keep).len() implies s.contains(
            #[trigger] s.filter(keep)[i],
        ) && keep(s.filter(keep)[i]) by {
            if i < less.filter(keep).len() {
                assert(s.filter(keep)[i] == less.filter(keep)[i]);
                assert(less.contains(less.filter(keep)[i]));
                let k = choose|k: int| 0 <= k < less.len() && less[k] == less.filter(keep)[i];
                assert(s[k] == less[k]);
            } else {
                assert(s.filter(keep)[i] == s.last());
                assert(s[s.len() - 1] == s.last());
            }
        }
    }
}

/// What passes a filter is left by it.
pub proof fn lemma_filter_keeps<A>(s: Seq<A>, keep: spec_fn(A) -> bool)
    ensures
        forall|i: int|
            0 <= i < s.len() && keep(#[trigger] s[i]) ==> s.filter(keep).contains(s[i]),
{
    broadcast use vstd::seq_lib::group_filter_ensures;

}

/// Views leave everything in its place.
pub proof fn law_views_keep_places<T: View, E: View>(s: Seq<T>, r: Result<T, E>, o: Option<T>)
    ensures
        seq_view(s).len() == s.len(),
        forall|i: int| 0 <= i < s.len() ==> #[trigger] seq_view(s)[i] == s[i]@,
        r matches Ok(value) ==> result_view(r) == Ok::<T::V, E::V>(value@),
        r matches Err(error) ==> result_view(r) == Err::<T::V, E::V>(error@),
        o matches Some(value) ==> option_view(o) == Some(value@),
        o is None ==> option_view(o) is None,
{
}

} // verus!
