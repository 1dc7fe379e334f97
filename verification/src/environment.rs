//! The environment variables that a process was given.

use vstd::prelude::*;

use crate::text::same_text;
use crate::views::option_view;

verus! {

/// Variables and their values, in the order in which they were given.
#[derive(Debug)]
pub struct Environment {
    pub vars: Vec<(String, String)>,
}

impl View for Environment {
    type V = Seq<(Seq<char>, Seq<char>)>;

    open spec fn view(&self) -> Seq<(Seq<char>, Seq<char>)> {
        self.vars@.map_values(|v: (String, String)| (v.0@, v.1@))
    }
}

/// The value of the first variable of that name.
pub open spec fn lookup(vars: Seq<(Seq<char>, Seq<char>)>, name: Seq<char>) -> Option<Seq<char>>
    decreases vars.len(),
{
    if vars.len() == 0 {
        None
    } else if vars[0].0 == name {
        Some(vars[0].1)
    } else {
        lookup(vars.skip(1), name)
    }
}

impl Environment {
    /// The value of a variable, where it is set.
    pub fn var(&self, name: &str) -> (value: Option<String>)
        ensures
            option_view(value) == lookup(self@, name@),
    {
        let ghost all = self@;
        let mut i: usize = 0;
        assert(all.skip(0) =~= all);
        while i < self.vars.len()
            invariant
                i <= self.vars@.len(),
                all == self@,
                lookup(all, name@) == lookup(all.skip(i as int), name@),
            decreases self.vars@.len() - i,
        {
            assert(all.skip(i as int)[0] == (self.vars@[i as int].0@, self.vars@[i as int].1@));
            if same_text(self.vars[i].0.as_str(), name) {
                return Some(self.vars[i].1.clone());
            }
            assert(all.skip(i as int).skip(1) =~= all.skip(i + 1));
            i += 1;
        }
        None
    }
}

/// A variable has the value of the first entry with its name, and no value where there is
/// no such entry.
pub proof fn law_first_entry_counts(vars: Seq<(Seq<char>, Seq<char>)>, name: Seq<char>)
    ensures
        lookup(vars, name) is None <==> forall|i: int|
            0 <= i < vars.len() ==> (#[trigger] vars[i]).0 != name,
        forall|i: int|
            0 <= i < vars.len() && (#[trigger] vars[i]).0 == name && (forall|j: int|
                0 <= j < i ==> (#[trigger] vars[j]).0 != name) ==> lookup(vars, name) == Some(
                vars[i].1,
            ),
    decreases vars.len(),
{
    if vars.len() > 0 && vars[0].0 != name {
        let rest = vars.skip(1);
        law_first_entry_counts(rest, name);
        if lookup(vars, name) is None {
            assert forall|i: int| 0 <= i < vars.len() implies (#[trigger] vars[i]).0 != name by {
                if i > 0 {
                    assert(rest[i - 1] == vars[i]);
                }
            }
        } else if forall|i: int| 0 <= i < vars.len() ==> (#[trigger] vars[i]).0 != name {
            assert forall|i: int| 0 <= i < rest.len() implies (#[trigger] rest[i]).0 != name by {
                assert(rest[i] == vars[i + 1]);
            }
        }
        assert forall|i: int|
            0 <= i < vars.len() && (#[trigger] vars[i]).0 == name && (forall|j: int|
                0 <= j < i ==> (#[trigger] vars[j]).0 != name) implies lookup(vars, name) == Some(
            vars[i].1,
        ) by {
            assert(rest[i - 1] == vars[i]);
            assert forall|j: int| 0 <= j < i - 1 implies (#[trigger] rest[j]).0 != name by {
                assert(rest[j] == vars[j + 1]);
            }
        }
    }
}

} // verus!
