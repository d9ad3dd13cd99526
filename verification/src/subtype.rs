//! Subtyping between desugared terms by their ladder-normal forms.

use vstd::prelude::*;
use crate::desugared::{dterm_view, dterms_view, lemma_dterms_view, DTermV, DesugaredTypeTerm};
use crate::lnf::{spec_lnf, spec_lnf_rungs};

verus! {

/// `i` is the first index at which `p` holds `x`.
pub open spec fn spec_first_match(p: Seq<DTermV>, x: DTermV, i: int) -> bool {
    &&& 0 <= i < p.len()
    &&& p[i] == x
    &&& forall|j: int| 0 <= j < i ==> p[j] != x
}

/// `k` is the first index below both lengths at which `a` and `b` differ.
pub open spec fn spec_first_mismatch(a: Seq<DTermV>, b: Seq<DTermV>, k: int) -> bool {
    &&& 0 <= k < a.len()
    &&& k < b.len()
    &&& a[k] != b[k]
    &&& forall|j: int| 0 <= j < k ==> a[j] == b[j]
}

/// Both normal forms can be computed within the step budget, and the expected one has a
/// top rung.
pub open spec fn spec_subtype_ok(provided: DTermV, expected: DTermV) -> bool {
    &&& spec_lnf(provided) is Some
    &&& spec_lnf(expected) is Some
    &&& spec_lnf_rungs(expected).len() > 0
}

/// The first rung of `provided` (in normal form) that is the top rung of `expected`,
/// with the ladder of the rungs from there down; `None` where there is none.
pub open spec fn spec_semantic_subtype(provided: DTermV, expected: DTermV) -> Option<(int, DTermV)> {
    let p = spec_lnf_rungs(provided);
    let e0 = spec_lnf_rungs(expected)[0];
    if exists|i: int| spec_first_match(p, e0, i) {
        let i = choose|i: int| spec_first_match(p, e0, i);
        Some((i, DTermV::Ladder(p.subrange(i, p.len() as int))))
    } else {
        None
    }
}

/// Where the semantic match is found, its ladder has a ladder as normal form, and the
/// indices that the comparison reports fit in a `usize`.
pub open spec fn spec_syntactic_ok(provided: DTermV, expected: DTermV) -> bool {
    &&& spec_subtype_ok(provided, expected)
    &&& match spec_semantic_subtype(provided, expected) {
        Some((fm, pt)) => spec_lnf(pt) is Some && fm + spec_lnf_rungs(pt).len() <= usize::MAX,
        None => true,
    }
}

/// `Ok` with the index of the first match where the rungs from there down begin with
/// the rungs of `expected`; `Err` with that index and the index of the first differing
/// rung where they do not; `Err((0, 0))` where there is no match.
pub open spec fn spec_syntactic_subtype(provided: DTermV, expected: DTermV) -> Result<int, (int, int)> {
    match spec_semantic_subtype(provided, expected) {
        Some((fm, pt)) => {
            let q = spec_lnf_rungs(pt);
            let e = spec_lnf_rungs(expected);
            if exists|k: int| spec_first_mismatch(q, e, k) {
                let k = choose|k: int| spec_first_mismatch(q, e, k);
                Err((fm, fm + k))
            } else {
                Ok(fm)
            }
        },
        None => Err((0, 0)),
    }
}

/// A copy of the rungs from index `i` on.
fn copy_from(v: &Vec<DesugaredTypeTerm>, i: usize) -> (r: Vec<DesugaredTypeTerm>)
    requires
        i <= v.len(),
    ensures
        dterms_view(r@) == dterms_view(v@).subrange(i as int, v.len() as int),
{
    let ghost sv = dterms_view(v@);
    proof { lemma_dterms_view(v@); }
    let mut r: Vec<DesugaredTypeTerm> = Vec::new();
    let mut k: usize = i;
    assert(dterms_view(r@) =~= sv.subrange(i as int, i as int));
    while k < v.len()
        invariant
            i <= k <= v.len(),
            sv == dterms_view(v@),
            sv.len() == v.len(),
            forall|j: int| 0 <= j < v.len() ==> #[trigger] sv[j] == dterm_view(v@[j]),
            dterms_view(r@) == sv.subrange(i as int, k as int),
        decreases v.len() - k,
    {
        let t = v[k].copy();
        proof {
            crate::desugared::lemma_dterms_view_push(r@, t);
            assert(sv.subrange(i as int, k + 1) =~= sv.subrange(i as int, k as int).push(sv[k as int]));
        }
        r.push(t);
        k += 1;
    }
    r
}

impl DesugaredTypeTerm {
    /// The first rung of this type (in ladder-normal form) that is the top rung of
    /// `expected`, with the ladder of the rungs from there down; `None` where there is
    /// none.
    pub fn is_semantic_subtype_of(&self, expected: &DesugaredTypeTerm) -> (r: Option<(usize, DesugaredTypeTerm)>)
        requires
            spec_subtype_ok(self@, expected@),
        ensures
            match r {
                Some((i, t)) => spec_semantic_subtype(self@, expected@) == Some((i as int, t@)),
                None => spec_semantic_subtype(self@, expected@) is None,
            },
    {
        let p = self.copy().get_lnf_vec();
        let e = expected.copy().get_lnf_vec();
        let ghost pv = dterms_view(p@);
        let ghost ev = dterms_view(e@);
        proof {
            lemma_dterms_view(p@);
            lemma_dterms_view(e@);
        }
        assert(pv == spec_lnf_rungs(self@));
        assert(ev == spec_lnf_rungs(expected@));
        let mut i: usize = 0;
        while i < p.len()
            invariant
                i <= p.len(),
                e.len() > 0,
                pv == dterms_view(p@),
                ev == dterms_view(e@),
                pv.len() == p.len(),
                ev.len() == e.len(),
                forall|j: int| 0 <= j < p.len() ==> #[trigger] pv[j] == dterm_view(p@[j]),
                forall|j: int| 0 <= j < e.len() ==> #[trigger] ev[j] == dterm_view(e@[j]),
                forall|j: int| 0 <= j < i ==> pv[j] != ev[0],
                pv == spec_lnf_rungs(self@),
                ev == spec_lnf_rungs(expected@),
            decreases p.len() - i,
        {
            if p[i].same(&e[0]) {
                let rest = copy_from(&p, i);
                let t = DesugaredTypeTerm::Ladder(rest);
                proof {
                    assert(spec_first_match(pv, ev[0], i as int));
                    let c = choose|c: int| spec_first_match(pv, ev[0], c);
                    assert(c == i as int) by {
                        if c < i {
                            assert(pv[c] != ev[0]);
                        }
                        if c > i {
                            assert(pv[i as int] != ev[0]);
                        }
                    }
                    assert(t@ == DTermV::Ladder(pv.subrange(i as int, pv.len() as int)));
                    assert(spec_semantic_subtype(self@, expected@) == Some((i as int, t@)));
                }
                return Some((i, t));
            }
            i += 1;
        }
        assert(!exists|c: int| spec_first_match(pv, ev[0], c));
        None
    }

    /// `Ok` with the index of the first rung of this type that is the top rung of
    /// `expected`, where the rungs from there down begin with the rungs of `expected`;
    /// `Err` with that index and the index of the first rung that differs where they do
    /// not; `Err((0, 0))` where no rung matches.
    pub fn is_syntactic_subtype_of(&self, expected: &DesugaredTypeTerm) -> (r: Result<usize, (usize, usize)>)
        requires
            spec_syntactic_ok(self@, expected@),
        ensures
            match r {
                Ok(i) => spec_syntactic_subtype(self@, expected@) == Ok::<int, (int, int)>(i as int),
                Err((a, b)) => spec_syntactic_subtype(self@, expected@) == Err::<int, (int, int)>((a as int, b as int)),
            },
    {
        match self.is_semantic_subtype_of(expected) {
            Some((first_match, provided_type)) => {
                let q = provided_type.get_lnf_vec();
                let e = expected.copy().get_lnf_vec();
                let ghost qv = dterms_view(q@);
                let ghost ev = dterms_view(e@);
                proof {
                    lemma_dterms_view(q@);
                    lemma_dterms_view(e@);
                }
                assert(spec_semantic_subtype(self@, expected@) == Some((first_match as int, provided_type@)));
                assert(qv == spec_lnf_rungs(provided_type@));
                assert(ev == spec_lnf_rungs(expected@));
                let n = if q.len() < e.len() { q.len() } else { e.len() };
                let mut i: usize = 0;
                while i < n
                    invariant
                        i <= n,
                        n <= q.len(),
                        n <= e.len(),
                        n == q.len() || n == e.len(),
                        qv == dterms_view(q@),
                        ev == dterms_view(e@),
                        qv.len() == q.len(),
                        ev.len() == e.len(),
                        first_match + q.len() <= usize::MAX,
                        forall|j: int| 0 <= j < q.len() ==> #[trigger] qv[j] == dterm_view(q@[j]),
                        forall|j: int| 0 <= j < e.len() ==> #[trigger] ev[j] == dterm_view(e@[j]),
                        forall|j: int| 0 <= j < i ==> qv[j] == ev[j],
                        spec_semantic_subtype(self@, expected@) == Some((first_match as int, provided_type@)),
                        qv == spec_lnf_rungs(provided_type@),
                        ev == spec_lnf_rungs(expected@),
                    decreases n - i,
                {
                    if !q[i].same(&e[i]) {
                        proof {
                            assert(spec_first_mismatch(qv, ev, i as int));
                            let c = choose|c: int| spec_first_mismatch(qv, ev, c);
                            assert(c == i as int) by {
                                if c < i {
                                    assert(qv[c] == ev[c]);
                                }
                                if c > i {
                                    assert(qv[i as int] == ev[i as int]);
                                }
                            }
                            assert(spec_syntactic_subtype(self@, expected@) == Err::<int, (int, int)>((first_match as int, first_match + i)));
                        }
                        return Err((first_match, first_match + i));
                    }
                    i += 1;
                }
                assert(!exists|c: int| spec_first_mismatch(qv, ev, c));
                Ok(first_match)
            },
            None => Err((0, 0)),
        }
    }

    /// `t` is a semantic subtype of this type: see `is_semantic_subtype_of`.
    pub fn is_semantic_supertype_of(&self, t: &DesugaredTypeTerm) -> (r: Option<(usize, DesugaredTypeTerm)>)
        requires
            spec_subtype_ok(t@, self@),
        ensures
            match r {
                Some((i, x)) => spec_semantic_subtype(t@, self@) == Some((i as int, x@)),
                None => spec_semantic_subtype(t@, self@) is None,
            },
    {
        t.is_semantic_subtype_of(self)
    }

    /// `t` is a syntactic subtype of this type: see `is_syntactic_subtype_of`.
    pub fn is_syntactic_supertype_of(&self, t: &DesugaredTypeTerm) -> (r: Result<usize, (usize, usize)>)
        requires
            spec_syntactic_ok(t@, self@),
        ensures
            match r {
                Ok(i) => spec_syntactic_subtype(t@, self@) == Ok::<int, (int, int)>(i as int),
                Err((a, b)) => spec_syntactic_subtype(t@, self@) == Err::<int, (int, int)>((a as int, b as int)),
            },
    {
        t.is_syntactic_subtype_of(self)
    }
}

} // verus!
