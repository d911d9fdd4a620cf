use vstd::prelude::*;

use crate::strutil::str_eq;

verus! {

/// Which rendering the listing command uses by default.
#[derive(Clone, Copy, Debug, PartialEq, Eq, Structural)]
pub enum ViewMode {
    Tree,
    List,
}

/// The tracker's settings: the reportee names and the default view.
#[derive(Clone, Debug)]
pub struct Config {
    pub reportees: Vec<String>,
    pub default_view: ViewMode,
}

impl Default for Config {
    /// First use starts with no reportees and the tree view.
    fn default() -> (r: Config)
        ensures
            r.reportees@ == Seq::<String>::empty(),
            r.default_view == ViewMode::Tree,
    {
        Config { reportees: Vec::new(), default_view: ViewMode::Tree }
    }
}

impl Config {
    /// Whether some stored reportee name reads exactly `name`.
    pub open spec fn has_reportee_spec(self, name: Seq<char>) -> bool {
        exists|i: int| 0 <= i < self.reportees@.len() && (#[trigger] self.reportees@[i])@ == name
    }

    /// Adds the name unless an equal one is already stored; reports
    /// whether it was added.
    pub fn add_reportee(&mut self, name: String) -> (r: bool)
        ensures
            r == !old(self).has_reportee_spec(name@),
            r ==> final(self).reportees@ == old(self).reportees@.push(name),
            !r ==> final(self).reportees@ == old(self).reportees@,
            final(self).default_view == old(self).default_view,
    {
        let n = self.reportees.len();
        let mut i: usize = 0;
        while i < n
            invariant
                *self == *old(self),
                n == self.reportees@.len(),
                0 <= i <= n,
                forall|j: int| 0 <= j < i ==> (#[trigger] self.reportees@[j])@ != name@,
            decreases n - i,
        {
            if str_eq(self.reportees[i].as_str(), name.as_str()) {
                return false;
            }
            i += 1;
        }
        self.reportees.push(name);
        true
    }

    /// Removes the first stored name reading exactly `name`; reports
    /// whether one was found.
    pub fn remove_reportee(&mut self, name: &str) -> (r: bool)
        ensures
            r == old(self).has_reportee_spec(name@),
            r ==> exists|i: int|
                0 <= i < old(self).reportees@.len() && (#[trigger] old(self).reportees@[i])@
                    == name@ && (forall|j: int|
                    0 <= j < i ==> (old(self).reportees@[j])@ != name@) && final(self).reportees@
                    == old(self).reportees@.remove(i),
            !r ==> *final(self) == *old(self),
            final(self).default_view == old(self).default_view,
    {
        let n = self.reportees.len();
        let mut i: usize = 0;
        while i < n
            invariant
                *self == *old(self),
                n == self.reportees@.len(),
                0 <= i <= n,
                forall|j: int| 0 <= j < i ==> (#[trigger] self.reportees@[j])@ != name@,
            decreases n - i,
        {
            if str_eq(self.reportees[i].as_str(), name) {
                self.reportees.remove(i);
                return true;
            }
            i += 1;
        }
        false
    }
}

} // verus!
