//! The FRI reduction schedule recorded for the prover: constant-arity
//! reductions until the folded polynomial is small, so the total reduction
//! arity never exceeds the circuit's degree bits.

use vstd::prelude::*;

verus! {

/// Bits of arity folded away by one FRI reduction step.
pub const FRI_REDUCTION_ARITY_BITS: usize = 4;

/// The degree bits at which folding stops.
pub const FRI_FINAL_POLY_BITS: usize = 5;

/// The arity schedule for a polynomial of `degree_bits`: fold four bits at a
/// time (less on the last step) until `FRI_FINAL_POLY_BITS` remain.
pub open spec fn arity_schedule(degree_bits: nat) -> Seq<usize>
    decreases degree_bits,
{
    if degree_bits <= FRI_FINAL_POLY_BITS {
        Seq::empty()
    } else {
        let room = (degree_bits - FRI_FINAL_POLY_BITS) as nat;
        let a: nat = if room < FRI_REDUCTION_ARITY_BITS as nat {
            room
        } else {
            FRI_REDUCTION_ARITY_BITS as nat
        };
        seq![a as usize] + arity_schedule((degree_bits - a) as nat)
    }
}

/// The sum of a schedule's arities.
pub open spec fn total_arities(s: Seq<usize>) -> int
    decreases s.len(),
{
    if s.len() == 0 {
        0
    } else {
        s[0] + total_arities(s.drop_first())
    }
}

pub proof fn lemma_total_arities_nonneg(s: Seq<usize>)
    ensures
        total_arities(s) >= 0,
    decreases s.len(),
{
    if s.len() > 0 {
        lemma_total_arities_nonneg(s.drop_first());
    }
}

/// A full schedule folds everything above the final size and nothing more.
pub proof fn lemma_schedule_total(degree_bits: nat)
    ensures
        total_arities(arity_schedule(degree_bits)) == if degree_bits <= FRI_FINAL_POLY_BITS {
            0int
        } else {
            degree_bits - FRI_FINAL_POLY_BITS
        },
        total_arities(arity_schedule(degree_bits)) <= degree_bits,
    decreases degree_bits,
{
    if degree_bits > FRI_FINAL_POLY_BITS {
        let room = (degree_bits - FRI_FINAL_POLY_BITS) as nat;
        let a: nat = if room < FRI_REDUCTION_ARITY_BITS as nat {
            room
        } else {
            FRI_REDUCTION_ARITY_BITS as nat
        };
        lemma_schedule_total((degree_bits - a) as nat);
        let s = arity_schedule(degree_bits);
        assert(s[0] == a as usize);
        assert(s.drop_first() =~= arity_schedule((degree_bits - a) as nat));
    }
}

/// The FRI parameters fixed by one compilation: the padded degree and the
/// reduction schedule.
#[derive(Clone, PartialEq, Eq, Debug)]
pub struct FriParams {
    pub degree_bits: usize,
    pub reduction_arity_bits: Vec<usize>,
}

impl FriParams {
    pub open spec fn wf(self) -> bool {
        self.reduction_arity_bits@ == arity_schedule(self.degree_bits as nat)
    }

    /// The total reduction arity of the schedule; it never exceeds the
    /// degree bits.
    pub fn total_arities(&self) -> (r: usize)
        requires
            self.wf(),
            self.degree_bits <= 64,
        ensures
            r as int == total_arities(self.reduction_arity_bits@),
            r <= self.degree_bits,
    {
        proof {
            lemma_schedule_total(self.degree_bits as nat);
            assert(self.reduction_arity_bits@.skip(0) =~= self.reduction_arity_bits@);
        }
        let mut sum: usize = 0;
        let mut i: usize = 0;
        let n = self.reduction_arity_bits.len();
        while i < n
            invariant
                i <= n,
                n == self.reduction_arity_bits@.len(),
                sum as int + total_arities(self.reduction_arity_bits@.skip(i as int))
                    == total_arities(self.reduction_arity_bits@),
                sum <= 64,
                total_arities(self.reduction_arity_bits@) <= 64,
            decreases n - i,
        {
            proof {
                let sk = self.reduction_arity_bits@.skip(i as int);
                assert(sk[0] == self.reduction_arity_bits@[i as int]);
                assert(sk.drop_first() =~= self.reduction_arity_bits@.skip(i as int + 1));
                lemma_total_arities_nonneg(self.reduction_arity_bits@.skip(i as int + 1));
                assert(sum as int + self.reduction_arity_bits@[i as int] <= 64);
            }
            sum = sum + self.reduction_arity_bits[i];
            i = i + 1;
        }
        proof {
            assert(self.reduction_arity_bits@.skip(n as int) =~= Seq::<usize>::empty());
        }
        sum
    }
}

/// Computes the FRI parameters for a circuit of `degree_bits`.
pub fn fri_params_for(degree_bits: usize) -> (r: FriParams)
    ensures
        r.degree_bits == degree_bits,
        r.wf(),
        total_arities(r.reduction_arity_bits@) <= degree_bits,
{
    let mut arities: Vec<usize> = Vec::new();
    let mut cur: usize = degree_bits;
    while cur > FRI_FINAL_POLY_BITS
        invariant
            cur <= degree_bits,
            arities@ + arity_schedule(cur as nat) =~= arity_schedule(degree_bits as nat),
        decreases cur,
    {
        let room = cur - FRI_FINAL_POLY_BITS;
        let a = if room < FRI_REDUCTION_ARITY_BITS {
            room
        } else {
            FRI_REDUCTION_ARITY_BITS
        };
        let ghost before = arities@;
        arities.push(a);
        cur = cur - a;
        proof {
            assert(arity_schedule((cur + a) as nat) =~= seq![a] + arity_schedule(cur as nat));
            assert(before.push(a) + arity_schedule(cur as nat)
                =~= before + (seq![a] + arity_schedule(cur as nat)));
        }
    }
    proof {
        assert(arity_schedule(cur as nat) =~= Seq::<usize>::empty());
        assert(arities@ + Seq::<usize>::empty() =~= arities@);
        lemma_schedule_total(degree_bits as nat);
    }
    FriParams { degree_bits, reduction_arity_bits: arities }
}

} // verus!
