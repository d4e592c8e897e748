//! Hamming distance between boolean assignments, and the ternary
//! per-variable value that a solving engine reports.

use vstd::prelude::*;

verus! {

/// A per-variable solver output: decided true, decided false, or undecided.
/// An undecided value must never appear in a final model that is used for
/// distance computation.
#[derive(Clone, Copy, PartialEq, Eq, Structural, Debug)]
pub enum Ternary {
    True,
    False,
    Undecided,
}

impl Ternary {
    /// The decided value, if any.
    pub open spec fn as_opt(self) -> Option<bool> {
        match self {
            Ternary::True => Some(true),
            Ternary::False => Some(false),
            Ternary::Undecided => None,
        }
    }
}

/// The value of a decided entry; false where the entry is undecided.
pub open spec fn opt_val(o: Option<bool>) -> bool {
    match o {
        Some(b) => b,
        None => false,
    }
}

/// Whether every entry of a ternary model is decided.
pub open spec fn fully_decided(m: Seq<Option<bool>>) -> bool {
    forall|i: int| 0 <= i < m.len() ==> m[i] is Some
}

/// The boolean assignment that a fully decided ternary model stands for.
pub open spec fn decided_values(m: Seq<Option<bool>>) -> Seq<bool> {
    Seq::new(m.len(), |i: int| opt_val(m[i]))
}

/// Number of indices below `i` at which the two sequences differ.
pub open spec fn diff_count(a: Seq<bool>, b: Seq<bool>, i: int) -> int
    decreases i,
{
    if i <= 0 {
        0
    } else {
        diff_count(a, b, i - 1) + if a[i - 1] == b[i - 1] {
            0int
        } else {
            1int
        }
    }
}

/// Hamming distance between two equal-length boolean sequences: the number
/// of positions at which they differ.
pub open spec fn hamming(a: Seq<bool>, b: Seq<bool>) -> int {
    diff_count(a, b, a.len() as int)
}

proof fn lemma_diff_count_symmetric(a: Seq<bool>, b: Seq<bool>, i: int)
    ensures
        diff_count(a, b, i) == diff_count(b, a, i),
    decreases i,
{
    if i > 0 {
        lemma_diff_count_symmetric(a, b, i - 1);
    }
}

proof fn lemma_diff_count_self(a: Seq<bool>, i: int)
    ensures
        diff_count(a, a, i) == 0,
    decreases i,
{
    if i > 0 {
        lemma_diff_count_self(a, i - 1);
    }
}

proof fn lemma_diff_count_bounds(a: Seq<bool>, b: Seq<bool>, i: int)
    ensures
        0 <= diff_count(a, b, i),
        i >= 0 ==> diff_count(a, b, i) <= i,
    decreases i,
{
    if i > 0 {
        lemma_diff_count_bounds(a, b, i - 1);
    }
}

proof fn lemma_diff_count_zero_agree(a: Seq<bool>, b: Seq<bool>, i: int)
    requires
        diff_count(a, b, i) == 0,
    ensures
        forall|k: int| 0 <= k < i ==> a[k] == b[k],
    decreases i,
{
    if i > 0 {
        lemma_diff_count_bounds(a, b, i - 1);
        lemma_diff_count_zero_agree(a, b, i - 1);
    }
}

/// The distance is symmetric, zero exactly between an assignment and itself,
/// and never exceeds the common length.
pub proof fn lemma_distance_properties(a: Seq<bool>, b: Seq<bool>)
    requires
        a.len() == b.len(),
    ensures
        hamming(a, b) == hamming(b, a),
        hamming(a, a) == 0,
        0 <= hamming(a, b) <= a.len(),
        hamming(a, b) == 0 <==> a == b,
{
    lemma_diff_count_symmetric(a, b, a.len() as int);
    lemma_diff_count_self(a, a.len() as int);
    lemma_diff_count_bounds(a, b, a.len() as int);
    if hamming(a, b) == 0 {
        lemma_diff_count_zero_agree(a, b, a.len() as int);
        assert(a =~= b);
    }
    if a == b {
        lemma_diff_count_self(a, a.len() as int);
    }
}

/// Hamming distance between two assignments of equal length.
pub fn distance(a: &Vec<bool>, b: &Vec<bool>) -> (d: usize)
    requires
        a@.len() == b@.len(),
    ensures
        d == hamming(a@, b@),
        d <= a@.len(),
{
    let n = a.len();
    let mut d: usize = 0;
    let mut i: usize = 0;
    while i < n
        invariant
            n == a@.len() == b@.len(),
            0 <= i <= n,
            d == diff_count(a@, b@, i as int),
            d <= i,
        decreases n - i,
    {
        if a[i] != b[i] {
            d = d + 1;
        }
        i = i + 1;
    }
    d
}

/// Turns a fully decided ternary model into a boolean assignment; reports
/// nothing when some entry is undecided.
pub fn decide(m: &Vec<Ternary>) -> (r: Option<Vec<bool>>)
    ensures
        match r {
            Some(a) => fully_decided(m@.map_values(|t: Ternary| t.as_opt())) && a@
                == decided_values(m@.map_values(|t: Ternary| t.as_opt())),
            None => !fully_decided(m@.map_values(|t: Ternary| t.as_opt())),
        },
{
    let n = m.len();
    let mut out: Vec<bool> = Vec::new();
    let mut i: usize = 0;
    while i < n
        invariant
            n == m@.len(),
            0 <= i <= n,
            out@.len() == i,
            forall|k: int| 0 <= k < i ==> m@[k].as_opt() is Some,
            forall|k: int| 0 <= k < i ==> out@[k] == opt_val(m@[k].as_opt()),
        decreases n - i,
    {
        match m[i] {
            Ternary::True => out.push(true),
            Ternary::False => out.push(false),
            Ternary::Undecided => {
                assert(!(m@.map_values(|t: Ternary| t.as_opt())[i as int] is Some));
                return None;
            },
        }
        i = i + 1;
    }
    proof {
        let mv = m@.map_values(|t: Ternary| t.as_opt());
        assert(out@ =~= decided_values(mv));
    }
    Some(out)
}

} // verus!
