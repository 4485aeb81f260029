//! The union-find structure over wire positions that encodes the transitive
//! closure of copy constraints. Every position starts as its own class;
//! merging keeps the smallest index of a class as its representative, so the
//! representative assignment is deterministic given a fixed merge order, and
//! merging an already-equal pair leaves the structure untouched.

use vstd::prelude::*;

verus! {

/// A parent array is well formed when every entry points at an index no
/// larger than its own, so every parent chain descends to a fixed point.
pub open spec fn parents_wf(p: Seq<usize>) -> bool {
    forall|i: int| 0 <= i < p.len() ==> #[trigger] p[i] <= i
}

/// The representative of `i`: the fixed point reached by following parents.
pub open spec fn root_of(p: Seq<usize>, i: int) -> int
    decreases i,
{
    if 0 <= i < p.len() && (p[i] as int) < i {
        root_of(p, p[i] as int)
    } else {
        i
    }
}

/// The parent array after merging the classes of `a` and `b`: the larger of
/// the two representatives is pointed at the smaller; equal representatives
/// leave the array unchanged.
pub open spec fn merge_seq(p: Seq<usize>, a: int, b: int) -> Seq<usize> {
    let ra = root_of(p, a);
    let rb = root_of(p, b);
    if ra == rb {
        p
    } else if ra < rb {
        p.update(rb, ra as usize)
    } else {
        p.update(ra, rb as usize)
    }
}

/// The parent array after merging every pair in `edges`, in order.
pub open spec fn merge_all(p: Seq<usize>, edges: Seq<(usize, usize)>) -> Seq<usize>
    decreases edges.len(),
{
    if edges.len() == 0 {
        p
    } else {
        merge_seq(merge_all(p, edges.drop_last()), edges.last().0 as int, edges.last().1 as int)
    }
}

pub proof fn lemma_root_in_range(p: Seq<usize>, i: int)
    requires
        parents_wf(p),
        0 <= i < p.len(),
    ensures
        0 <= root_of(p, i) <= i,
        p[root_of(p, i)] == root_of(p, i),
    decreases i,
{
    if (p[i] as int) < i {
        lemma_root_in_range(p, p[i] as int);
    }
}

/// Linking a root `r_old` down to a smaller index `r_new` redirects exactly
/// the class of `r_old` onto the class of `r_new`.
proof fn lemma_root_after_link(p: Seq<usize>, r_old: int, r_new: int, j: int)
    requires
        parents_wf(p),
        0 <= r_new < r_old < p.len(),
        p[r_old] == r_old,
        0 <= j < p.len(),
    ensures
        root_of(p.update(r_old, r_new as usize), j)
            == if root_of(p, j) == r_old { root_of(p, r_new) } else { root_of(p, j) },
    decreases j,
{
    let q = p.update(r_old, r_new as usize);
    lemma_root_in_range(p, r_new);
    if j == r_old {
        lemma_root_after_link(p, r_old, r_new, r_new);
    } else {
        if (p[j] as int) < j {
            lemma_root_after_link(p, r_old, r_new, p[j] as int);
        }
    }
}

/// Merging never separates: indices with equal representatives keep equal
/// representatives after any further merge.
pub proof fn lemma_merge_preserves_equal(p: Seq<usize>, a: int, b: int, x: int, y: int)
    requires
        parents_wf(p),
        0 <= a < p.len(),
        0 <= b < p.len(),
        0 <= x < p.len(),
        0 <= y < p.len(),
        root_of(p, x) == root_of(p, y),
    ensures
        root_of(merge_seq(p, a, b), x) == root_of(merge_seq(p, a, b), y),
{
    lemma_merge_roots(p, a, b, x);
    lemma_merge_roots(p, a, b, y);
}

/// The representatives after a merge, element by element.
pub proof fn lemma_merge_roots(p: Seq<usize>, a: int, b: int, j: int)
    requires
        parents_wf(p),
        0 <= a < p.len(),
        0 <= b < p.len(),
        0 <= j < p.len(),
    ensures
        root_of(merge_seq(p, a, b), j) == {
            let ra = root_of(p, a);
            let rb = root_of(p, b);
            let hi = if ra < rb { rb } else { ra };
            let lo = if ra < rb { ra } else { rb };
            if root_of(p, j) == hi && hi != lo {
                lo
            } else {
                root_of(p, j)
            }
        },
{
    let ra = root_of(p, a);
    let rb = root_of(p, b);
    lemma_root_in_range(p, a);
    lemma_root_in_range(p, b);
    if ra == rb {
    } else if ra < rb {
        lemma_root_after_link(p, rb, ra, j);
        lemma_root_in_range(p, a);
        assert(root_of(p, ra) == ra);
    } else {
        lemma_root_after_link(p, ra, rb, j);
        assert(root_of(p, rb) == rb);
    }
}

/// Merging the classes of `a` and `b` makes their representatives equal.
pub proof fn lemma_merge_connects(p: Seq<usize>, a: int, b: int)
    requires
        parents_wf(p),
        0 <= a < p.len(),
        0 <= b < p.len(),
    ensures
        root_of(merge_seq(p, a, b), a) == root_of(merge_seq(p, a, b), b),
{
    lemma_merge_roots(p, a, b, a);
    lemma_merge_roots(p, a, b, b);
}

/// A merge keeps the parent array well formed and its length.
pub proof fn lemma_merge_wf(p: Seq<usize>, a: int, b: int)
    requires
        parents_wf(p),
        0 <= a < p.len(),
        0 <= b < p.len(),
    ensures
        parents_wf(merge_seq(p, a, b)),
        merge_seq(p, a, b).len() == p.len(),
{
    lemma_root_in_range(p, a);
    lemma_root_in_range(p, b);
}

/// The union-find forest over wire positions.
pub struct Forest {
    parents: Vec<usize>,
}

impl Forest {
    pub closed spec fn view(&self) -> Seq<usize> {
        self.parents@
    }

    pub open spec fn wf(&self) -> bool {
        parents_wf(self@)
    }

    pub open spec fn len(&self) -> nat {
        self@.len()
    }

    /// A forest of `size` singleton classes.
    pub fn new(size: usize) -> (r: Forest)
        ensures
            r.wf(),
            r.len() == size,
            forall|i: int| 0 <= i < size ==> r@[i] == i,
    {
        let mut parents: Vec<usize> = Vec::new();
        let mut i: usize = 0;
        while i < size
            invariant
                i <= size,
                parents@.len() == i,
                forall|t: int| 0 <= t < i ==> parents@[t] == t,
            decreases size - i,
        {
            parents.push(i);
            i = i + 1;
        }
        Forest { parents }
    }

    pub fn num_slots(&self) -> (r: usize)
        ensures
            r == self.len(),
    {
        self.parents.len()
    }

    /// The representative of `i`'s equivalence class. Repeated lookups on an
    /// unchanged forest return the same representative.
    pub fn find(&self, i: usize) -> (r: usize)
        requires
            self.wf(),
            i < self.len(),
        ensures
            r as int == root_of(self@, i as int),
            r <= i,
    {
        let mut cur = i;
        while self.parents[cur] != cur
            invariant
                self.wf(),
                cur < self.len(),
                cur <= i,
                root_of(self@, cur as int) == root_of(self@, i as int),
            decreases cur,
        {
            cur = self.parents[cur];
        }
        cur
    }

    /// Union the classes of `a` and `b`. The smaller representative wins;
    /// merging an already-equal pair leaves the forest unchanged.
    pub fn merge(&mut self, a: usize, b: usize)
        requires
            old(self).wf(),
            a < old(self).len(),
            b < old(self).len(),
        ensures
            final(self).wf(),
            final(self).len() == old(self).len(),
            final(self)@ == merge_seq(old(self)@, a as int, b as int),
            root_of(old(self)@, a as int) == root_of(old(self)@, b as int)
                ==> final(self)@ == old(self)@,
            root_of(final(self)@, a as int) == root_of(final(self)@, b as int),
    {
        proof {
            lemma_merge_wf(old(self)@, a as int, b as int);
            lemma_merge_connects(old(self)@, a as int, b as int);
        }
        let ra = self.find(a);
        let rb = self.find(b);
        if ra < rb {
            self.parents.set(rb, ra);
        } else if rb < ra {
            self.parents.set(ra, rb);
        }
        proof {
            assert(self@ =~= merge_seq(old(self)@, a as int, b as int));
        }
    }

    /// The full representative map: position `i` maps to the representative
    /// of its class.
    pub fn representative_map(&self) -> (r: Vec<usize>)
        requires
            self.wf(),
        ensures
            r@.len() == self.len(),
            forall|i: int| 0 <= i < r@.len() ==> r@[i] as int == root_of(self@, i),
    {
        let n = self.parents.len();
        let mut out: Vec<usize> = Vec::new();
        let mut i: usize = 0;
        while i < n
            invariant
                i <= n,
                n == self.len(),
                self.wf(),
                out@.len() == i,
                forall|t: int| 0 <= t < i ==> out@[t] as int == root_of(self@, t),
            decreases n - i,
        {
            let rep = self.find(i);
            out.push(rep);
            i = i + 1;
        }
        out
    }
}

} // verus!
