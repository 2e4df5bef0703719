//! The tally of what an edit changed.

use vstd::prelude::*;
use vstd::string::*;

verus! {

/// Counts of the records that one operation updated, removed and added.
#[derive(PartialEq, Eq, Structural, Debug, Clone, Copy)]
pub struct Modifications {
    pub updated_entries: i32,
    pub removed_entries: i32,
    pub added_entries: i32,
}

impl Modifications {
    /// The tally of the two tallies taken together, counter by counter.
    pub open spec fn merged(self, m: Modifications) -> (int, int, int) {
        (
            self.updated_entries + m.updated_entries,
            self.removed_entries + m.removed_entries,
            self.added_entries + m.added_entries,
        )
    }

    /// Whether no counter of the merged tally leaves the range of `i32`.
    pub open spec fn can_merge(self, m: Modifications) -> bool {
        &&& i32::MIN <= self.updated_entries + m.updated_entries <= i32::MAX
        &&& i32::MIN <= self.removed_entries + m.removed_entries <= i32::MAX
        &&& i32::MIN <= self.added_entries + m.added_entries <= i32::MAX
    }

    /// What there is to say of the tally: for each counter above zero what
    /// happened to that many entries, the added first, then the updated, then
    /// the removed.
    pub open spec fn report(self) -> Seq<(Seq<char>, i32)> {
        (if self.added_entries > 0 {
            seq![("Added"@, self.added_entries)]
        } else {
            Seq::empty()
        }) + (if self.updated_entries > 0 {
            seq![("Updated"@, self.updated_entries)]
        } else {
            Seq::empty()
        }) + (if self.removed_entries > 0 {
            seq![("Removed"@, self.removed_entries)]
        } else {
            Seq::empty()
        })
    }

    /// The empty tally.
    pub fn new() -> (r: Modifications)
        ensures
            r.updated_entries == 0,
            r.removed_entries == 0,
            r.added_entries == 0,
    {
        Modifications { updated_entries: 0, removed_entries: 0, added_entries: 0 }
    }

    /// Adds the counters of `m` to those of `self`.
    pub fn merge(&mut self, m: Modifications)
        requires
            old(self).can_merge(m),
        ensures
            final(self).updated_entries == old(self).updated_entries + m.updated_entries,
            final(self).removed_entries == old(self).removed_entries + m.removed_entries,
            final(self).added_entries == old(self).added_entries + m.added_entries,
    {
        self.updated_entries = self.updated_entries + m.updated_entries;
        self.removed_entries = self.removed_entries + m.removed_entries;
        self.added_entries = self.added_entries + m.added_entries;
    }
}

/// What each pair of a word and a count holds.
pub open spec fn counts(v: Seq<(String, i32)>) -> Seq<(Seq<char>, i32)> {
    Seq::new(v.len(), |i: int| (v[i].0@, v[i].1))
}

impl Modifications {
    /// What there is to say of the tally: a word and a count for each
    /// counter above zero.
    pub fn status(&self) -> (r: Vec<(String, i32)>)
        ensures
            counts(r@) == self.report(),
    {
        let mut out: Vec<(String, i32)> = Vec::new();
        if self.added_entries > 0 {
            out.push((String::from_str("Added"), self.added_entries));
        }
        if self.updated_entries > 0 {
            out.push((String::from_str("Updated"), self.updated_entries));
        }
        if self.removed_entries > 0 {
            out.push((String::from_str("Removed"), self.removed_entries));
        }
        assert(counts(out@) =~= self.report());
        out
    }
}

impl Default for Modifications {
    fn default() -> (r: Modifications)
        ensures
            r.updated_entries == 0,
            r.removed_entries == 0,
            r.added_entries == 0,
    {
        Modifications::new()
    }
}

} // verus!
