//! Request-index mappings, used when earlier batch entries are pruned and
//! every surviving back-reference must be renumbered.

use vstd::prelude::*;

verus! {

/// What a mapping sends an index to: the table entry where one exists,
/// the index itself beyond the table.
pub open spec fn map_lookup(m: Seq<usize>, i: int) -> int {
    if 0 <= i < m.len() {
        m[i] as int
    } else {
        i
    }
}

/// A total mapping from old request indices to new ones: index `i` is sent
/// to `table[i]` where the table covers it, and to itself beyond the table.
#[derive(Debug, Clone, PartialEq, Eq)]
pub struct IndexMapping {
    table: Vec<usize>,
}

impl View for IndexMapping {
    type V = Seq<usize>;

    closed spec fn view(&self) -> Seq<usize> {
        self.table@
    }
}

impl IndexMapping {
    /// Builds the mapping that sends index `i` to `table[i]`, and any index
    /// beyond the table to itself.
    pub fn new(table: Vec<usize>) -> (r: Self)
        ensures
            r@ == table@,
    {
        IndexMapping { table }
    }

    /// The identity mapping.
    pub fn identity() -> (r: Self)
        ensures
            r@.len() == 0,
            forall|i: int| map_lookup(r@, i) == i,
    {
        IndexMapping { table: Vec::new() }
    }

    /// Where the mapping sends index `i`.
    pub fn lookup(&self, i: usize) -> (r: usize)
        ensures
            r as int == map_lookup(self@, i as int),
    {
        if i < self.table.len() {
            self.table[i]
        } else {
            i
        }
    }

    /// The mapping that applies `self` first and `other` second.
    pub fn compose(&self, other: &IndexMapping) -> (r: IndexMapping)
        ensures
            forall|i: int| map_lookup(r@, i) == map_lookup(other@, map_lookup(self@, i)),
    {
        let n = if self.table.len() > other.table.len() {
            self.table.len()
        } else {
            other.table.len()
        };
        let mut table: Vec<usize> = Vec::new();
        let mut i: usize = 0;
        while i < n
            invariant
                i <= n,
                table@.len() == i,
                self@.len() <= n,
                other@.len() <= n,
                forall|j: int|
                    0 <= j < i ==> table@[j] as int == map_lookup(
                        other@,
                        map_lookup(self@, j),
                    ),
            decreases n - i,
        {
            table.push(other.lookup(self.lookup(i)));
            i = i + 1;
        }
        let r = IndexMapping { table };
        proof {
            assert forall|i: int|
                map_lookup(r@, i) == map_lookup(other@, map_lookup(self@, i)) by {
                if 0 <= i < n {
                } else {
                    assert(map_lookup(self@, i) == i);
                    assert(map_lookup(other@, i) == i);
                }
            }
        }
        r
    }
}

} // verus!
