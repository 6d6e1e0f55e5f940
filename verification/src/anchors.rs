//! The anchors of one document.
use crate::node::NodeBase;
use crate::yaml::NodeView;
use crate::text::str_eq;
use vstd::prelude::*;

verus! {

/// The nodes of one document that carry an anchor, by anchor name.
///
/// Binding a name again hides the earlier node: the later definition wins.
#[derive(Debug)]
pub struct AnchorTable {
    entries: Vec<(String, NodeBase)>,
}

/// `i` is the last place at which `name` was bound.
pub open spec fn bound_at(entries: Seq<(String, NodeBase)>, name: Seq<char>, i: int) -> bool {
    &&& 0 <= i < entries.len()
    &&& entries[i].0@ == name
    &&& forall|k: int| i < k < entries.len() ==> entries[k].0@ != name
}

impl View for AnchorTable {
    type V = Map<Seq<char>, NodeBase>;

    closed spec fn view(&self) -> Map<Seq<char>, NodeBase> {
        Map::new(
            |name: Seq<char>| exists|i: int| bound_at(self.entries@, name, i),
            |name: Seq<char>| self.entries@[choose|i: int| bound_at(self.entries@, name, i)].1,
        )
    }
}

impl AnchorTable {
    /// The bindings with each node as its view.
    pub open spec fn deep(&self) -> Map<Seq<char>, NodeView> {
        self@.map_values(|n: NodeBase| n@)
    }

    /// A table without bindings.
    pub fn new() -> (r: Self)
        ensures
            r@ == Map::<Seq<char>, NodeBase>::empty(),
    {
        let r = AnchorTable { entries: Vec::new() };
        assert(r@ =~= Map::<Seq<char>, NodeBase>::empty());
        r
    }

    fn find(&self, name: &str) -> (r: Option<usize>)
        ensures
            match r {
                Some(i) => bound_at(self.entries@, name@, i as int),
                None => forall|i: int| !bound_at(self.entries@, name@, i),
            },
    {
        let mut i: usize = self.entries.len();
        while i > 0
            invariant
                i <= self.entries@.len(),
                forall|k: int| i <= k < self.entries@.len() ==> self.entries@[k].0@ != name@,
            decreases i,
        {
            i -= 1;
            if str_eq(self.entries[i].0.as_str(), name) {
                return Some(i);
            }
        }
        None
    }

    /// Whether no name is bound.
    pub fn is_empty(&self) -> (r: bool)
        ensures
            r == (self@ == Map::<Seq<char>, NodeBase>::empty()),
    {
        let r = self.entries.len() == 0;
        proof {
            if r {
                assert(self@ =~= Map::<Seq<char>, NodeBase>::empty());
            } else {
                let last = self.entries@.len() - 1;
                assert(bound_at(self.entries@, self.entries@[last].0@, last));
                assert(self@.contains_key(self.entries@[last].0@));
            }
        }
        r
    }

    /// Whether `name` is bound.
    pub fn contains_key(&self, name: &str) -> (r: bool)
        ensures
            r == self@.contains_key(name@),
    {
        self.find(name).is_some()
    }

    /// The node bound to `name`.
    pub fn get(&self, name: &str) -> (r: Option<&NodeBase>)
        ensures
            match r {
                Some(n) => self@.contains_key(name@) && *n == self@[name@],
                None => !self@.contains_key(name@),
            },
    {
        match self.find(name) {
            Some(i) => {
                proof {
                    let j = choose|j: int| bound_at(self.entries@, name@, j);
                    assert(j == i);
                }
                Some(&self.entries[i].1)
            },
            None => None,
        }
    }

    /// Binds `name` to `node`; an earlier binding of that name is forgotten.
    pub fn insert(&mut self, name: String, node: NodeBase)
        ensures
            final(self)@ == old(self)@.insert(name@, node),
    {
        let ghost before = self.entries@;
        let ghost key = name@;
        self.entries.push((name, node));
        proof {
            let after = self.entries@;
            let want = old(self)@.insert(key, node);
            let n = before.len() as int;
            assert(bound_at(after, key, n));
            assert forall|k: Seq<char>, j: int| k != key && bound_at(before, k, j) implies bound_at(
                after,
                k,
                j,
            ) by {
                assert forall|m: int| j < m < after.len() implies after[m].0@ != k by {
                    if m < n {
                        assert(before[m].0@ != k);
                    }
                }
            }
            assert forall|k: Seq<char>, j: int| k != key && bound_at(after, k, j) implies bound_at(
                before,
                k,
                j,
            ) by {
                assert forall|m: int| j < m < before.len() implies before[m].0@ != k by {
                    assert(after[m].0@ != k);
                }
            }
            assert forall|k: Seq<char>| self@.contains_key(k) <==> want.contains_key(k) by {
                if self@.contains_key(k) && k != key {
                    let j = choose|j: int| bound_at(after, k, j);
                    assert(bound_at(before, k, j));
                }
                if want.contains_key(k) && k != key {
                    let j = choose|j: int| bound_at(before, k, j);
                    assert(bound_at(after, k, j));
                }
            }
            assert forall|k: Seq<char>| self@.contains_key(k) implies self@[k] == want[k] by {
                let j = choose|j: int| bound_at(after, k, j);
                if k != key {
                    assert(bound_at(before, k, j));
                    let j0 = choose|j0: int| bound_at(before, k, j0);
                    assert(j0 == j);
                } else {
                    assert(j == n);
                }
            }
            assert(self@ =~= want);
        }
    }
}

} // verus!
