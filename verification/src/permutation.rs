//! Sigma-polynomial construction. Each routed wire gets the canonical index
//! `col * degree + row`; after the copy constraints are unioned into the
//! forest, the wire at index `i` points at the next member of its class in
//! ascending index order, wrapping to the first, which realizes the cyclic
//! permutation checked later by the grand-product argument. The value written
//! is the next wire's domain element `k_col' * omega^row'`, and the cosets
//! `k_i * H` are checked pairwise disjoint before anything is emitted.

use vstd::prelude::*;
use crate::field::{f_mul, mul_f, GOLDILOCKS_ORDER};
use crate::forest::{Forest, root_of};

verus! {

/// The first index at or after `j` whose representative is `r`, or -1.
pub open spec fn scan_from(p: Seq<usize>, r: int, j: int) -> int
    decreases p.len() - j,
{
    if 0 <= j < p.len() {
        if root_of(p, j) == r {
            j
        } else {
            scan_from(p, r, j + 1)
        }
    } else {
        -1
    }
}

/// The next member of `i`'s class in ascending order, wrapping to the first.
pub open spec fn next_in_class(p: Seq<usize>, i: int) -> int {
    let after = scan_from(p, root_of(p, i), i + 1);
    if after >= 0 {
        after
    } else {
        scan_from(p, root_of(p, i), 0)
    }
}

/// A scan finds the first match at or after its start.
pub proof fn lemma_scan_finds_first(p: Seq<usize>, r: int, j: int, t: int)
    requires
        0 <= j <= t < p.len(),
        root_of(p, t) == r,
        forall|u: int| j <= u < t ==> root_of(p, u) != r,
    ensures
        scan_from(p, r, j) == t,
    decreases t - j,
{
    if j < t {
        lemma_scan_finds_first(p, r, j + 1, t);
    }
}

/// A scan over members of other classes only finds nothing.
pub proof fn lemma_scan_none(p: Seq<usize>, r: int, j: int)
    requires
        0 <= j,
        forall|u: int| j <= u < p.len() ==> root_of(p, u) != r,
    ensures
        scan_from(p, r, j) == -1,
    decreases p.len() - j,
{
    if j < p.len() {
        lemma_scan_none(p, r, j + 1);
    }
}

/// What a scan returns: either -1, or the first index at or after `j` in
/// class `r`.
pub proof fn lemma_scan_bounds(p: Seq<usize>, r: int, j: int)
    requires
        0 <= j,
    ensures
        scan_from(p, r, j) == -1 || (j <= scan_from(p, r, j) < p.len()
            && root_of(p, scan_from(p, r, j)) == r),
    decreases p.len() - j,
{
    if 0 <= j < p.len() && root_of(p, j) != r {
        lemma_scan_bounds(p, r, j + 1);
    }
}

/// The cyclic successor stays inside the grid and inside the class.
pub proof fn lemma_next_in_range(p: Seq<usize>, i: int)
    requires
        0 <= i < p.len(),
    ensures
        0 <= next_in_class(p, i) < p.len(),
        root_of(p, next_in_class(p, i)) == root_of(p, i),
{
    let r = root_of(p, i);
    lemma_scan_bounds(p, r, i + 1);
    if scan_from(p, r, i + 1) < 0 {
        lemma_scan_bounds(p, r, 0);
        if scan_from(p, r, 0) == -1 {
            lemma_scan_finds_some(p, r, 0, i);
        }
    }
}

proof fn lemma_scan_finds_some(p: Seq<usize>, r: int, j: int, t: int)
    requires
        0 <= j <= t < p.len(),
        root_of(p, t) == r,
    ensures
        scan_from(p, r, j) != -1,
    decreases t - j,
{
    if root_of(p, j) != r {
        lemma_scan_finds_some(p, r, j + 1, t);
    }
}

/// In an untouched forest every class is a singleton, so the cyclic
/// successor of every index is the index itself: the permutation is the
/// identity.
pub proof fn lemma_next_identity(p: Seq<usize>, i: int)
    requires
        0 <= i < p.len(),
        forall|t: int| 0 <= t < p.len() ==> p[t] == t,
    ensures
        next_in_class(p, i) == i,
{
    assert forall|t: int| 0 <= t < p.len() implies root_of(p, t) == t by {}
    lemma_scan_none(p, i, i + 1);
    lemma_scan_finds_first(p, i, 0, i);
}

/// In a class of exactly two members, each is the successor of the other:
/// the sigma values at the two positions reference each other.
pub proof fn lemma_next_pair(p: Seq<usize>, i: int, j: int)
    requires
        0 <= i < j < p.len(),
        root_of(p, i) == root_of(p, j),
        forall|t: int| 0 <= t < p.len() && t != i && t != j ==> root_of(p, t) != root_of(p, i),
    ensures
        next_in_class(p, i) == j,
        next_in_class(p, j) == i,
{
    let r = root_of(p, i);
    lemma_scan_finds_first(p, r, i + 1, j);
    lemma_scan_none(p, r, j + 1);
    lemma_scan_finds_first(p, r, 0, i);
}

impl Forest {
    /// The first index at or after `start` in class `r`.
    pub fn scan(&self, r: usize, start: usize) -> (res: Option<usize>)
        requires
            self.wf(),
        ensures
            match res {
                Some(s) => s as int == scan_from(self@, r as int, start as int),
                None => scan_from(self@, r as int, start as int) == -1,
            },
    {
        let n = self.num_slots();
        let mut j = start;
        while j < n
            invariant
                self.wf(),
                start <= j,
                n == self.len(),
                scan_from(self@, r as int, start as int) == scan_from(self@, r as int, j as int),
            decreases n - j,
        {
            let rj = self.find(j);
            if rj == r {
                return Some(j);
            }
            j = j + 1;
        }
        None
    }

    /// The cyclic successor of `i` within its class.
    pub fn next_in_class(&self, i: usize) -> (r: usize)
        requires
            self.wf(),
            i < self.len(),
        ensures
            r as int == next_in_class(self@, i as int),
            r < self.len(),
    {
        proof {
            lemma_next_in_range(self@, i as int);
        }
        let n = self.num_slots();
        let rep = self.find(i);
        match self.scan(rep, i + 1) {
            Some(s) => s,
            None => {
                match self.scan(rep, 0) {
                    Some(s) => s,
                    None => {
                        proof {
                            lemma_scan_finds_some(self@, rep as int, 0, i as int);
                        }
                        0
                    },
                }
            },
        }
    }
}

/// The sigma value of the wire at `col * degree + row`: the domain element
/// of its cyclic successor.
pub open spec fn sigma_value(
    p: Seq<usize>,
    prods: Seq<Seq<u64>>,
    degree: nat,
    idx: int,
) -> u64 {
    let nxt = next_in_class(p, idx);
    prods[nxt / degree as int][nxt % degree as int]
}

/// The coset products: entry `(i, a)` is `k_i * omega^a`.
pub fn coset_products(k_is: &Vec<u64>, subgroup: &Vec<u64>) -> (r: Vec<Vec<u64>>)
    requires
        forall|i: int| 0 <= i < k_is@.len() ==> k_is@[i] < GOLDILOCKS_ORDER,
    ensures
        r@.len() == k_is@.len(),
        forall|i: int| 0 <= i < r@.len() ==> (#[trigger] r@[i])@.len() == subgroup@.len(),
        forall|i: int, a: int| #![trigger r@[i]@[a]]
            0 <= i < r@.len() && 0 <= a < subgroup@.len()
            ==> r@[i]@[a] == f_mul(k_is@[i], subgroup@[a]),
{
    let mut out: Vec<Vec<u64>> = Vec::new();
    let mut i: usize = 0;
    while i < k_is.len()
        invariant
            i <= k_is@.len(),
            out@.len() == i,
            forall|t: int| 0 <= t < i ==> (#[trigger] out@[t])@.len() == subgroup@.len(),
            forall|t: int, a: int| #![trigger out@[t]@[a]]
                0 <= t < i && 0 <= a < subgroup@.len()
                ==> out@[t]@[a] == f_mul(k_is@[t], subgroup@[a]),
        decreases k_is@.len() - i,
    {
        let mut row: Vec<u64> = Vec::new();
        let mut a: usize = 0;
        while a < subgroup.len()
            invariant
                a <= subgroup@.len(),
                i < k_is@.len(),
                row@.len() == a,
                forall|b: int| 0 <= b < a ==> row@[b] == f_mul(k_is@[i as int], subgroup@[b]),
            decreases subgroup@.len() - a,
        {
            row.push(mul_f(k_is[i], subgroup[a]));
            a = a + 1;
        }
        out.push(row);
        i = i + 1;
    }
    out
}

/// Whether no value of `x` occurs in `y`.
fn rows_disjoint(x: &Vec<u64>, y: &Vec<u64>) -> (r: bool)
    ensures
        r <==> forall|a: int, b: int| 0 <= a < x@.len() && 0 <= b < y@.len()
            ==> x@[a] != y@[b],
{
    let mut a: usize = 0;
    while a < x.len()
        invariant
            a <= x@.len(),
            forall|s: int, b: int| 0 <= s < a && 0 <= b < y@.len() ==> x@[s] != y@[b],
        decreases x@.len() - a,
    {
        let mut b: usize = 0;
        while b < y.len()
            invariant
                a < x@.len(),
                b <= y@.len(),
                forall|s: int, t: int| 0 <= s < a && 0 <= t < y@.len() ==> x@[s] != y@[t],
                forall|t: int| 0 <= t < b ==> x@[a as int] != y@[t],
            decreases y@.len() - b,
        {
            if x[a] == y[b] {
                return false;
            }
            b = b + 1;
        }
        a = a + 1;
    }
    true
}

/// Whether the cosets are pairwise disjoint: no product of one row occurs in
/// another row. If they are not, compilation must fail rather than emit a
/// colliding permutation.
pub fn all_cosets_disjoint(prods: &Vec<Vec<u64>>) -> (r: bool)
    ensures
        r <==> forall|i: int, j: int, a: int, b: int| #![trigger prods@[i]@[a], prods@[j]@[b]]
            0 <= i < prods@.len() && 0 <= j < prods@.len() && i != j
                && 0 <= a < prods@[i]@.len() && 0 <= b < prods@[j]@.len()
                ==> prods@[i]@[a] != prods@[j]@[b],
{
    let n = prods.len();
    let mut i: usize = 0;
    while i < n
        invariant
            i <= n,
            n == prods@.len(),
            forall|s: int, t: int, a: int, b: int| #![trigger prods@[s]@[a], prods@[t]@[b]]
                0 <= s < i && s < t < n && 0 <= a < prods@[s]@.len()
                    && 0 <= b < prods@[t]@.len()
                    ==> prods@[s]@[a] != prods@[t]@[b],
        decreases n - i,
    {
        let mut j = i + 1;
        while j < n
            invariant
                i < j <= n,
                i < n,
                n == prods@.len(),
                forall|s: int, t: int, a: int, b: int| #![trigger prods@[s]@[a], prods@[t]@[b]]
                    0 <= s < i && s < t < n && 0 <= a < prods@[s]@.len()
                        && 0 <= b < prods@[t]@.len()
                        ==> prods@[s]@[a] != prods@[t]@[b],
                forall|t: int, a: int, b: int| #![trigger prods@[t]@[b], prods@[i as int]@[a]]
                    i < t < j && 0 <= a < prods@[i as int]@.len()
                        && 0 <= b < prods@[t]@.len()
                        ==> prods@[i as int]@[a] != prods@[t]@[b],
            decreases n - j,
        {
            if !rows_disjoint(&prods[i], &prods[j]) {
                proof {
                    let wa = choose|a: int, b: int| 0 <= a < prods@[i as int]@.len()
                        && 0 <= b < prods@[j as int]@.len()
                        && prods@[i as int]@[a] == prods@[j as int]@[b];
                }
                return false;
            }
            j = j + 1;
        }
        i = i + 1;
    }
    true
}

/// The sigma polynomials, column by column: position `(col, row)` holds the
/// domain element of the cyclic successor of wire `col * degree + row`.
pub fn sigma_polys(
    forest: &Forest,
    prods: &Vec<Vec<u64>>,
    degree: usize,
) -> (r: Vec<Vec<u64>>)
    requires
        forest.wf(),
        degree >= 1,
        forest.len() == prods@.len() * degree,
        forall|i: int| 0 <= i < prods@.len() ==> (#[trigger] prods@[i])@.len() == degree,
    ensures
        r@.len() == prods@.len(),
        forall|c: int| 0 <= c < r@.len() ==> (#[trigger] r@[c])@.len() == degree,
        forall|c: int, row: int| #![trigger r@[c]@[row]]
            0 <= c < r@.len() && 0 <= row < degree
            ==> r@[c]@[row]
                == sigma_value(forest@, prods.deep_view(), degree as nat, c * degree + row),
{
    let cols = prods.len();
    let n_slots = forest.num_slots();
    let mut out: Vec<Vec<u64>> = Vec::new();
    let mut c: usize = 0;
    while c < cols
        invariant
            c <= cols,
            cols == prods@.len(),
            forest.wf(),
            degree >= 1,
            forest.len() == cols * degree,
            n_slots == cols * degree,
            forall|i: int| 0 <= i < cols ==> (#[trigger] prods@[i])@.len() == degree,
            out@.len() == c,
            forall|s: int| 0 <= s < c ==> (#[trigger] out@[s])@.len() == degree,
            forall|s: int, row: int| #![trigger out@[s]@[row]]
                0 <= s < c && 0 <= row < degree
                ==> out@[s]@[row]
                    == sigma_value(forest@, prods.deep_view(), degree as nat, s * degree + row),
        decreases cols - c,
    {
        let mut column: Vec<u64> = Vec::new();
        let mut row: usize = 0;
        while row < degree
            invariant
                row <= degree,
                c < cols,
                cols == prods@.len(),
                forest.wf(),
                degree >= 1,
                forest.len() == cols * degree,
                n_slots == cols * degree,
                forall|i: int| 0 <= i < cols ==> (#[trigger] prods@[i])@.len() == degree,
                column@.len() == row,
                forall|t: int| 0 <= t < row ==> column@[t]
                    == sigma_value(forest@, prods.deep_view(), degree as nat, c * degree + t),
            decreases degree - row,
        {
            proof {
                assert((c as int + 1) * degree <= cols * degree) by (nonlinear_arith)
                    requires (c as int) < (cols as int) && degree >= 1;
                assert(c * degree + row < cols * degree) by (nonlinear_arith)
                    requires (c as int + 1) * (degree as int) <= (cols as int) * (degree as int)
                        && 0 <= (row as int) && (row as int) < (degree as int) && 0 <= c as int;
            }
            let idx = c * degree + row;
            let nxt = forest.next_in_class(idx);
            proof {
                assert((nxt as int) / (degree as int) < (cols as int)
                    && 0 <= (nxt as int) % (degree as int) < (degree as int)) by (nonlinear_arith)
                    requires 0 <= (nxt as int) && (nxt as int) < (cols as int) * (degree as int)
                        && degree >= 1;
                assert(prods.deep_view()[(nxt as int) / (degree as int)]
                    == prods@[(nxt as int) / (degree as int)]@);
            }
            let col2 = nxt / degree;
            let row2 = nxt % degree;
            column.push(prods[col2][row2]);
            row = row + 1;
        }
        out.push(column);
        c = c + 1;
    }
    out
}

} // verus!
