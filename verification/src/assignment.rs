//! A mapping from variable letters to boolean values, used to evaluate a
//! formula over its variables.

use vstd::prelude::*;

verus! {

/// The boolean value bound to each variable letter for one evaluation.
///
/// The bindings are kept as a list; a later binding for the same letter
/// overrides an earlier one, exactly as `Map::insert` does in the view.
pub struct Assignment {
    entries: Vec<(char, bool)>,
}

/// The map described by a list of bindings, later bindings winning.
pub open spec fn map_of_entries(s: Seq<(char, bool)>) -> Map<char, bool>
    decreases s.len(),
{
    if s.len() == 0 {
        Map::empty()
    } else {
        map_of_entries(s.drop_last()).insert(s.last().0, s.last().1)
    }
}

impl View for Assignment {
    type V = Map<char, bool>;

    closed spec fn view(&self) -> Map<char, bool> {
        map_of_entries(self.entries@)
    }
}

impl Assignment {
    /// An assignment binding no variables.
    pub fn new() -> (r: Self)
        ensures
            r@ == Map::<char, bool>::empty(),
    {
        Assignment { entries: Vec::new() }
    }

    /// Binds `variable` to `value`, overriding any earlier binding.
    pub fn set(&mut self, variable: char, value: bool)
        ensures
            final(self)@ == old(self)@.insert(variable, value),
    {
        self.entries.push((variable, value));
        proof {
            assert(self.entries@.drop_last() =~= old(self).entries@);
        }
    }

    /// The value bound to `variable`: `Some` exactly when the variable is
    /// in the assignment's domain, and then the bound value.
    pub fn get(&self, variable: char) -> (r: Option<bool>)
        ensures
            r == (if self@.dom().contains(variable) {
                Some(self@[variable])
            } else {
                None::<bool>
            }),
    {
        let mut i = self.entries.len();
        proof {
            assert(self.entries@.take(i as int) =~= self.entries@);
        }
        while i > 0
            invariant
                i <= self.entries@.len(),
                map_of_entries(self.entries@).dom().contains(variable) == map_of_entries(
                    self.entries@.take(i as int),
                ).dom().contains(variable),
                map_of_entries(self.entries@.take(i as int)).dom().contains(variable)
                    ==> map_of_entries(self.entries@)[variable] == map_of_entries(
                    self.entries@.take(i as int),
                )[variable],
            decreases i,
        {
            i = i - 1;
            let entry = self.entries[i];
            proof {
                assert(self.entries@.take(i + 1).drop_last() =~= self.entries@.take(i as int));
                assert(self.entries@.take(i + 1).last() == self.entries@[i as int]);
            }
            if entry.0 == variable {
                return Some(entry.1);
            }
        }
        proof {
            assert(self.entries@.take(0) =~= Seq::<(char, bool)>::empty());
        }
        None
    }
}

} // verus!
