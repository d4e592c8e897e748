//! Clauses over boolean variables, their satisfaction semantics, and the
//! growing constraint set that blocking-clause enumeration maintains.

use vstd::prelude::*;

verus! {

/// A literal is a variable index paired with its sign: `(v, true)` is
/// satisfied when variable `v` is true, `(v, false)` when it is false.
/// A clause is a disjunction of literals.
pub type Clause = Vec<(usize, bool)>;

/// Whether assignment `a` satisfies one literal.
pub open spec fn lit_sat(a: Seq<bool>, l: (usize, bool)) -> bool {
    l.0 < a.len() && a[l.0 as int] == l.1
}

/// Whether assignment `a` satisfies one clause: some literal holds.
pub open spec fn clause_sat(a: Seq<bool>, c: Seq<(usize, bool)>) -> bool {
    exists|k: int| 0 <= k < c.len() && lit_sat(a, c[k])
}

/// Whether assignment `a` satisfies every clause of `cs`.
pub open spec fn all_sat(a: Seq<bool>, cs: Seq<Seq<(usize, bool)>>) -> bool {
    forall|j: int| 0 <= j < cs.len() ==> clause_sat(a, cs[j])
}

/// The clause that excludes exactly the assignment `s`: for every variable,
/// the literal that is false under `s`.
pub open spec fn blocking_clause(s: Seq<bool>) -> Seq<(usize, bool)> {
    Seq::new(s.len(), |i: int| (i as usize, !s[i]))
}

/// An ordered set of clauses over variables `0..n`. In the blocking-clause
/// experiment it grows by one clause after every found solution and never
/// shrinks within a run.
pub struct ConstraintSet {
    /// Number of variables; every literal speaks of a variable below it.
    pub n: usize,
    /// The clauses, in the order they were added.
    pub clauses: Vec<Clause>,
}

/// Largest variable count the engine adapter accepts. It keeps the
/// engine's literal encoding, variable and sign in one `u32`, in range;
/// and since the engine stores a clause's literal count in a 27-bit
/// header field and its simplification keeps at most two literals per
/// variable, the cap keeps even twice the variable count strictly below
/// that field's range, so no stored clause can overflow it.
pub const VAR_LIMIT: usize = 0x0200_0000;

impl ConstraintSet {
    /// The clauses as mathematical sequences.
    pub open spec fn view_clauses(self) -> Seq<Seq<(usize, bool)>> {
        self.clauses@.map_values(|c: Clause| c@)
    }

    /// Well-formed: some variables, not more than the engine can index,
    /// no empty clause, and every literal within range.
    pub open spec fn wf(self) -> bool {
        &&& 0 < self.n <= VAR_LIMIT
        &&& forall|j: int|
            0 <= j < self.clauses@.len() ==> (#[trigger] self.clauses@[j])@.len() > 0
        &&& forall|j: int, k: int|
            0 <= j < self.clauses@.len() && 0 <= k < (#[trigger] self.clauses@[j])@.len()
                ==> (#[trigger] self.clauses@[j]@[k]).0 < self.n
    }

    /// A constraint set over `n` variables holding the given clauses.
    pub fn new(n: usize, clauses: Vec<Clause>) -> (cs: ConstraintSet)
        ensures
            cs.n == n,
            cs.clauses@ == clauses@,
    {
        ConstraintSet { n, clauses }
    }

    /// Number of clauses currently held.
    pub fn len(&self) -> (r: usize)
        ensures
            r == self.clauses@.len(),
    {
        self.clauses.len()
    }

    /// Appends the clause that blocks `solution`, so that no later solve of
    /// this set can return `solution` again. The set grows by exactly one
    /// clause and nothing already present changes.
    pub fn push_blocking(&mut self, solution: &Vec<bool>) -> (c: Clause)
        requires
            old(self).wf(),
            solution@.len() == old(self).n,
        ensures
            c@ == blocking_clause(solution@),
            final(self).n == old(self).n,
            final(self).clauses@.len() == old(self).clauses@.len() + 1,
            final(self).view_clauses() == old(self).view_clauses().push(
                blocking_clause(solution@),
            ),
            final(self).wf(),
    {
        let n = solution.len();
        let mut c: Clause = Vec::new();
        let mut i: usize = 0;
        while i < n
            invariant
                n == solution@.len(),
                0 <= i <= n,
                c@.len() == i,
                forall|k: int| 0 <= k < i ==> c@[k] == (k as usize, !solution@[k]),
            decreases n - i,
        {
            c.push((i, !solution[i]));
            i = i + 1;
        }
        proof {
            assert(c@ =~= blocking_clause(solution@));
        }
        let copy = clone_clause(&c);
        self.clauses.push(copy);
        proof {
            assert(self.view_clauses() =~= old(self).view_clauses().push(
                blocking_clause(solution@),
            ));
        }
        c
    }
}

/// A copy of a clause, literal for literal.
pub fn clone_clause(c: &Clause) -> (r: Clause)
    ensures
        r@ == c@,
{
    let mut r: Clause = Vec::new();
    let mut i: usize = 0;
    while i < c.len()
        invariant
            0 <= i <= c@.len(),
            r@.len() == i,
            forall|k: int| 0 <= k < i ==> r@[k] == c@[k],
        decreases c@.len() - i,
    {
        let l = c[i];
        r.push(l);
        i = i + 1;
    }
    proof {
        assert(r@ =~= c@);
    }
    r
}

/// A copy of a clause list, clause for clause.
pub fn clone_clauses(cs: &Vec<Clause>) -> (r: Vec<Clause>)
    ensures
        r@.map_values(|c: Clause| c@) == cs@.map_values(|c: Clause| c@),
        r@.len() == cs@.len(),
{
    let mut r: Vec<Clause> = Vec::new();
    let mut i: usize = 0;
    while i < cs.len()
        invariant
            0 <= i <= cs@.len(),
            r@.len() == i,
            forall|k: int| 0 <= k < i ==> (#[trigger] r@[k])@ == cs@[k]@,
        decreases cs@.len() - i,
    {
        let c = clone_clause(&cs[i]);
        r.push(c);
        i = i + 1;
    }
    proof {
        assert(r@.map_values(|c: Clause| c@) =~= cs@.map_values(|c: Clause| c@));
    }
    r
}

/// No assignment of `n` booleans satisfies every clause of `css`.
pub open spec fn unsatisfiable(css: Seq<Seq<(usize, bool)>>, n: int) -> bool {
    forall|a: Seq<bool>| a.len() == n ==> !all_sat(a, css)
}

/// An assignment satisfies the clause blocking `s` exactly when it differs
/// from `s` somewhere.
proof fn lemma_blocking_clause_sat(t: Seq<bool>, s: Seq<bool>)
    requires
        t.len() == s.len(),
        s.len() <= usize::MAX,
    ensures
        clause_sat(t, blocking_clause(s)) <==> t != s,
{
    let bc = blocking_clause(s);
    if clause_sat(t, bc) {
        let k = choose|k: int| 0 <= k < bc.len() && lit_sat(t, bc[k]);
        assert(bc[k] == (k as usize, !s[k]));
        assert(t[k] == !s[k]);
        assert(t != s);
    }
    if t != s {
        if forall|k: int| 0 <= k < t.len() ==> t[k] == s[k] {
            assert(t =~= s);
        } else {
            assert(exists|k: int| 0 <= k < t.len() && t[k] != s[k]);
            let k = choose|k: int| 0 <= k < t.len() && t[k] != s[k];
            assert(bc[k] == (k as usize, !s[k]));
            assert(lit_sat(t, bc[k]));
        }
    }
}

/// Blocking excludes exactly the blocked solution: an assignment satisfies
/// the constraint set with `blocking_clause(s)` appended precisely when it
/// satisfies the original set and is not `s` itself. Hence a later solve of
/// the updated set can never return `s` again, whatever hints it was given.
pub proof fn lemma_blocking_excludes(t: Seq<bool>, s: Seq<bool>, cs: Seq<Seq<(usize, bool)>>)
    requires
        t.len() == s.len(),
        s.len() <= usize::MAX,
    ensures
        all_sat(t, cs.push(blocking_clause(s))) <==> (all_sat(t, cs) && t != s),
{
    let bc = blocking_clause(s);
    let cs2 = cs.push(bc);
    lemma_blocking_clause_sat(t, s);
    if all_sat(t, cs2) {
        assert(clause_sat(t, cs2[cs.len() as int]));
        assert forall|j: int| 0 <= j < cs.len() implies clause_sat(t, cs[j]) by {
            assert(cs2[j] == cs[j]);
            assert(clause_sat(t, cs2[j]));
        }
    }
    if all_sat(t, cs) && t != s {
        assert forall|j: int| 0 <= j < cs2.len() implies clause_sat(t, cs2[j]) by {
            if j < cs.len() {
                assert(cs2[j] == cs[j]);
            } else {
                assert(cs2[j] == bc);
            }
        }
    }
}

} // verus!
