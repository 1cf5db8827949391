use vstd::prelude::*;
use crate::strutil::str_eq;

verus! {

/// One label-to-node mapping: the reference table of a single template
/// namespace, populated in document order, with labels unique per table.
pub struct RefTable {
    entries: Vec<(String, indextree::NodeId)>,
}

/// The mapping a sequence of entries denotes; later entries would win, but
/// the table never holds a label twice.
pub closed spec fn map_of(s: Seq<(String, indextree::NodeId)>) -> Map<
    Seq<char>,
    indextree::NodeId,
>
    decreases s.len(),
{
    if s.len() == 0 {
        Map::empty()
    } else {
        map_of(s.drop_last()).insert(s.last().0@, s.last().1)
    }
}

proof fn lemma_map_of_dom(s: Seq<(String, indextree::NodeId)>, x: Seq<char>)
    ensures
        map_of(s).dom().contains(x) <==> exists|i: int|
            0 <= i < s.len() && (#[trigger] s[i]).0@ == x,
    decreases s.len(),
{
    if s.len() > 0 {
        lemma_map_of_dom(s.drop_last(), x);
        assert(forall|i: int| 0 <= i < s.len() - 1 ==> (#[trigger] s.drop_last()[i]) == s[i]);
        assert(s.last() == s[s.len() - 1]);
        if map_of(s).dom().contains(x) {
            if s.last().0@ != x {
                let i = choose|i: int| 0 <= i < s.drop_last().len() && (#[trigger] s.drop_last()[i]).0@ == x;
                assert(s[i].0@ == x);
            }
        }
        if exists|i: int| 0 <= i < s.len() && (#[trigger] s[i]).0@ == x {
            let i = choose|i: int| 0 <= i < s.len() && (#[trigger] s[i]).0@ == x;
            if i < s.len() - 1 {
                assert(s.drop_last()[i].0@ == x);
            }
        }
    }
}

impl RefTable {
    /// The label-to-node mapping this table holds.
    pub closed spec fn spec_map(&self) -> Map<Seq<char>, indextree::NodeId> {
        map_of(self.entries@)
    }

    /// An empty table.
    pub fn new() -> (t: RefTable)
        ensures
            t.spec_map() == Map::<Seq<char>, indextree::NodeId>::empty(),
    {
        RefTable { entries: Vec::new() }
    }

    /// An empty table with room reserved for about `cap` labels; the table
    /// itself grows on demand.
    pub fn with_capacity(cap: usize) -> (t: RefTable)
        ensures
            t.spec_map() == Map::<Seq<char>, indextree::NodeId>::empty(),
    {
        RefTable { entries: Vec::with_capacity(cap) }
    }

    /// Whether `label` is registered.
    pub fn contains(&self, label: &str) -> (r: bool)
        ensures
            r == self.spec_map().dom().contains(label@),
    {
        let n = self.entries.len();
        let mut i: usize = 0;
        while i < n
            invariant
                n == self.entries@.len(),
                0 <= i <= n,
                forall|j: int| 0 <= j < i ==> (#[trigger] self.entries@[j]).0@ != label@,
            decreases n - i,
        {
            if str_eq(self.entries[i].0.as_str(), label) {
                proof {
                    lemma_map_of_dom(self.entries@, label@);
                }
                return true;
            }
            i += 1;
        }
        proof {
            lemma_map_of_dom(self.entries@, label@);
        }
        false
    }

    /// The node a label resolves to, if it is registered; with duplicates,
    /// the latest registration would win, though the parser never registers a
    /// label twice.
    pub fn lookup(&self, label: &str) -> (r: Option<indextree::NodeId>)
        ensures
            match r {
                Some(id) => self.spec_map().dom().contains(label@) && self.spec_map()[label@]
                    == id,
                None => !self.spec_map().dom().contains(label@),
            },
    {
        let n = self.entries.len();
        let mut i: usize = n;
        while i > 0
            invariant
                n == self.entries@.len(),
                0 <= i <= n,
                forall|j: int| i <= j < n ==> (#[trigger] self.entries@[j]).0@ != label@,
            decreases i,
        {
            i -= 1;
            if str_eq(self.entries[i].0.as_str(), label) {
                proof {
                    lemma_map_of_last_match(self.entries@, i as int);
                }
                return Some(self.entries[i].1);
            }
        }
        proof {
            lemma_map_of_dom(self.entries@, label@);
        }
        None
    }

    /// Registers `label`; reports `false`, changing nothing, when the label
    /// is already taken in this namespace.
    pub fn define(&mut self, label: String, id: indextree::NodeId) -> (r: bool)
        ensures
            r == !old(self).spec_map().dom().contains(label@),
            r ==> final(self).spec_map() == old(self).spec_map().insert(label@, id),
            !r ==> final(self).spec_map() == old(self).spec_map(),
    {
        if self.contains(label.as_str()) {
            false
        } else {
            let ghost prev = self.entries@;
            self.entries.push((label, id));
            proof {
                assert(self.entries@.drop_last() =~= prev);
            }
            true
        }
    }
}

proof fn lemma_map_of_last_match(s: Seq<(String, indextree::NodeId)>, i: int)
    requires
        0 <= i < s.len(),
        forall|j: int| i < j < s.len() ==> (#[trigger] s[j]).0@ != s[i].0@,
    ensures
        map_of(s).dom().contains(s[i].0@),
        map_of(s)[s[i].0@] == s[i].1,
    decreases s.len(),
{
    assert(s.last() == s[s.len() - 1]);
    if i == s.len() - 1 {
    } else {
        assert(forall|j: int| 0 <= j < s.len() - 1 ==> (#[trigger] s.drop_last()[j]) == s[j]);
        lemma_map_of_last_match(s.drop_last(), i);
        assert(s.last().0@ != s[i].0@);
    }
}

} // verus!
