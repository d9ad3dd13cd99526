//! The estimated cost of a morphism: a heuristic for the search of morphism paths.

use vstd::prelude::*;
use crate::term::{TypeTerm, TermV, term_view, terms_view, lemma_terms_view, lemma_view_variant};
use crate::semantics::{spec_normalize, spec_subtype_unify};
use crate::constraint_system::{STEP_BUDGET, subtype_unify_f};
use crate::morphism::MorphismType;

verus! {

/// The estimated cost of a conversion from `a` to `b`: none where `a` is a subtype of
/// `b`; otherwise compared componentwise after normalization.
pub open spec fn spec_cost(a: TermV, b: TermV, fuel: nat) -> Option<nat>
    decreases fuel, 0nat,
{
    if fuel == 0 {
        None
    } else {
        let f = (fuel - 1) as nat;
        match spec_subtype_unify(a, b, f) {
            None => None,
            Some(Ok(_)) => Some(0),
            Some(Err(_)) => match (spec_normalize(a, f), spec_normalize(b, f)) {
                (Some(x), Some(y)) => spec_cost_normal(x, y, f),
                _ => None,
            },
        }
    }
}

/// The rungs of a ladder or the parameters of an application.
pub open spec fn elems(t: TermV) -> Seq<TermV> {
    match t {
        TermV::Ladder(r) => r,
        TermV::Spec(a) => a,
        _ => Seq::empty(),
    }
}

/// The item type of a sequence.
pub open spec fn item_of(t: TermV) -> TermV {
    match t {
        TermV::Sequence { item, .. } => *item,
        _ => t,
    }
}

/// The cost of a conversion between two normalized terms.
pub open spec fn spec_cost_normal(x: TermV, y: TermV, fuel: nat) -> Option<nat>
    decreases fuel, elems(x).len() + 3,
{
    if (x is Ladder && y is Ladder) || (x is Spec && y is Spec) {
        match spec_cost_sum(elems(x), elems(y), fuel) {
            Some(c) => Some(10 + c),
            None => None,
        }
    } else if x is Sequence && y is Sequence {
        match spec_cost(item_of(x), item_of(y), fuel) {
            Some(c) => Some(10 + c),
            None => None,
        }
    } else if x is Var || y is Var {
        Some(1)
    } else if x == y {
        Some(0)
    } else {
        Some(10)
    }
}

/// The sum of the costs of the pairs `(a[i], b[i])` as far as both go.
pub open spec fn spec_cost_sum(a: Seq<TermV>, b: Seq<TermV>, fuel: nat) -> Option<nat>
    decreases fuel, a.len() + 2,
{
    if a.len() == 0 || b.len() == 0 {
        Some(0)
    } else {
        let n = if a.len() < b.len() { a.len() } else { b.len() };
        match (spec_cost_sum(a.subrange(0, n - 1), b.subrange(0, n - 1), fuel), spec_cost(a[n - 1], b[n - 1], fuel)) {
            (Some(p), Some(c)) => Some(p + c),
            _ => None,
        }
    }
}

/// A prefix of the pairwise cost sum is at most the whole sum, and fails where the
/// whole sum fails.
proof fn lemma_cost_sum_prefix(a: Seq<TermV>, b: Seq<TermV>, k: int, fuel: nat)
    requires
        0 <= k <= a.len(),
        k <= b.len(),
    ensures
        spec_cost_sum(a, b, fuel) is Some ==> spec_cost_sum(a.subrange(0, k), b.subrange(0, k), fuel) is Some
            && spec_cost_sum(a.subrange(0, k), b.subrange(0, k), fuel).unwrap() <= spec_cost_sum(a, b, fuel).unwrap(),
    decreases a.len() + b.len() - 2 * k,
{
    let n = if a.len() < b.len() { a.len() } else { b.len() };
    if k < n {
        lemma_cost_sum_prefix(a, b, k + 1, fuel);
        let a1 = a.subrange(0, k + 1);
        let b1 = b.subrange(0, k + 1);
        assert(a1.subrange(0, k) =~= a.subrange(0, k));
        assert(b1.subrange(0, k) =~= b.subrange(0, k));
        assert(a1[k] == a[k]);
        assert(b1[k] == b[k]);
    } else {
        assert(a.subrange(0, n as int) =~= a.subrange(0, k));
        assert(b.subrange(0, n as int) =~= b.subrange(0, k));
        if n > 0 {
            assert(a.subrange(0, k).subrange(0, n - 1) =~= a.subrange(0, n - 1));
            assert(b.subrange(0, k).subrange(0, n - 1) =~= b.subrange(0, n - 1));
        }
    }
}

/// The estimated cost of a conversion from `a` to `b` within the step budget.  `None`
/// where the budget runs out or the cost does not fit in a `u64`.
pub fn cost_f(a: &TypeTerm, b: &TypeTerm, fuel: u64) -> (r: Option<u64>)
    ensures
        match r {
            Some(c) => spec_cost(a@, b@, fuel as nat) == Some(c as nat),
            None => spec_cost(a@, b@, fuel as nat) is None || spec_cost(a@, b@, fuel as nat).unwrap() > u64::MAX,
        },
    decreases fuel, 0nat,
{
    if fuel == 0 {
        return None;
    }
    let f = fuel - 1;
    match subtype_unify_f(a, b, f) {
        None => {
            return None;
        },
        Some(Ok(_)) => {
            return Some(0);
        },
        Some(Err(_)) => {},
    }
    let x = match a.normalize_core(f) {
        Some(x) => x,
        None => {
            return None;
        },
    };
    let y = match b.normalize_core(f) {
        Some(y) => y,
        None => {
            return None;
        },
    };
    assert(spec_cost(a@, b@, fuel as nat) == spec_cost_normal(x@, y@, f as nat));
    cost_normal_f(&x, &y, f)
}

/// Ten more than a cost, where it fits.
fn add_ten(c: Option<u64>) -> (r: Option<u64>)
    ensures
        match c {
            Some(x) => if x + 10 <= u64::MAX { r == Some((x + 10) as u64) } else { r is None },
            None => r is None,
        },
{
    match c {
        Some(x) => x.checked_add(10),
        None => None,
    }
}

/// The cost of a conversion between two normalized terms that are not both ladders,
/// applications or sequences.
fn cost_leaf(x: &TypeTerm, y: &TypeTerm) -> (r: u64)
    ensures
        r == (if x@ is Var || y@ is Var { 1nat } else if x@ == y@ { 0nat } else { 10nat }),
{
    proof {
        lemma_view_variant(x);
        lemma_view_variant(y);
    }
    let xv = match x {
        TypeTerm::Var(_) => true,
        _ => false,
    };
    let yv = match y {
        TypeTerm::Var(_) => true,
        _ => false,
    };
    if xv || yv {
        1
    } else if x.same(y) {
        0
    } else {
        10
    }
}

/// The cost of a conversion between two normalized terms.
#[verifier::rlimit(30)]
fn cost_normal_f(x: &TypeTerm, y: &TypeTerm, f: u64) -> (r: Option<u64>)
    ensures
        match r {
            Some(c) => spec_cost_normal(x@, y@, f as nat) == Some(c as nat),
            None => spec_cost_normal(x@, y@, f as nat) is None || spec_cost_normal(x@, y@, f as nat).unwrap() > u64::MAX,
        },
    decreases f, 3nat,
{
    proof {
        lemma_view_variant(x);
        lemma_view_variant(y);
    }
    match (x, y) {
        (TypeTerm::Ladder(r1), TypeTerm::Ladder(r2)) => {
            assert(elems(x@) == terms_view(r1@));
            assert(elems(y@) == terms_view(r2@));
            add_ten(cost_sum_f(r1, r2, f))
        },
        (TypeTerm::Spec(a1), TypeTerm::Spec(a2)) => {
            assert(elems(x@) == terms_view(a1@));
            assert(elems(y@) == terms_view(a2@));
            add_ten(cost_sum_f(a1, a2, f))
        },
        (TypeTerm::Sequence { item: i1, .. }, TypeTerm::Sequence { item: i2, .. }) => {
            assert(item_of(x@) == i1@);
            assert(item_of(y@) == i2@);
            add_ten(cost_f(i1, i2, f))
        },
        _ => {
            assert(!((x@ is Ladder && y@ is Ladder) || (x@ is Spec && y@ is Spec)));
            assert(!(x@ is Sequence && y@ is Sequence));
            Some(cost_leaf(x, y))
        },
    }
}

/// The sum of the costs of the pairs `(a[i], b[i])` as far as both go.
fn cost_sum_f(a: &Vec<TypeTerm>, b: &Vec<TypeTerm>, fuel: u64) -> (r: Option<u64>)
    ensures
        match r {
            Some(c) => spec_cost_sum(terms_view(a@), terms_view(b@), fuel as nat) == Some(c as nat),
            None => spec_cost_sum(terms_view(a@), terms_view(b@), fuel as nat) is None
                || spec_cost_sum(terms_view(a@), terms_view(b@), fuel as nat).unwrap() > u64::MAX,
        },
    decreases fuel, 2nat,
{
    let ghost sa = terms_view(a@);
    let ghost sb = terms_view(b@);
    proof {
        lemma_terms_view(a@);
        lemma_terms_view(b@);
    }
    let n: usize = if a.len() < b.len() { a.len() } else { b.len() };
    let mut total: u64 = 0;
    let mut i: usize = 0;
    while i < n
        invariant
            i <= n,
            n <= a.len(),
            n <= b.len(),
            n == (if a.len() < b.len() { a.len() } else { b.len() }),
            sa == terms_view(a@),
            sb == terms_view(b@),
            sa.len() == a.len(),
            sb.len() == b.len(),
            forall|j: int| 0 <= j < a.len() ==> #[trigger] sa[j] == term_view(a@[j]),
            forall|j: int| 0 <= j < b.len() ==> #[trigger] sb[j] == term_view(b@[j]),
            spec_cost_sum(sa.subrange(0, i as int), sb.subrange(0, i as int), fuel as nat) == Some(total as nat),
        decreases n - i,
    {
        let ghost pa = sa.subrange(0, i + 1);
        let ghost pb = sb.subrange(0, i + 1);
        assert(pa.subrange(0, i as int) =~= sa.subrange(0, i as int));
        assert(pb.subrange(0, i as int) =~= sb.subrange(0, i as int));
        proof { lemma_cost_sum_prefix(sa, sb, i + 1, fuel as nat); }
        assert(pa[i as int] == sa[i as int]);
        assert(pb[i as int] == sb[i as int]);
        assert(pa.len() == i + 1 && pb.len() == i + 1);
        assert(pa.subrange(0, pa.len() - 1) =~= sa.subrange(0, i as int));
        assert(pb.subrange(0, pb.len() - 1) =~= sb.subrange(0, i as int));
        assert(pa[pa.len() - 1] == sa[i as int]);
        assert(spec_cost_sum(pa, pb, fuel as nat) == match (spec_cost_sum(sa.subrange(0, i as int), sb.subrange(0, i as int), fuel as nat), spec_cost(sa[i as int], sb[i as int], fuel as nat)) {
            (Some(p), Some(c)) => Some(p + c),
            _ => None,
        });
        match cost_f(&a[i], &b[i], fuel) {
            None => {
                return None;
            },
            Some(c) => match total.checked_add(c) {
                None => {
                    return None;
                },
                Some(t) => {
                    total = t;
                },
            },
        }
        i += 1;
    }
    proof { lemma_cost_sum_prefix(sa, sb, n as int, fuel as nat); }
    assert(sa.subrange(0, n as int).len() == n);
    proof {
        if n > 0 || true {
            lemma_cost_sum_whole(sa, sb, fuel as nat);
        }
    }
    Some(total)
}

/// The pairwise cost sum looks only at the common prefix.
proof fn lemma_cost_sum_whole(a: Seq<TermV>, b: Seq<TermV>, fuel: nat)
    ensures
        ({
            let n = if a.len() < b.len() { a.len() } else { b.len() };
            spec_cost_sum(a, b, fuel) == spec_cost_sum(a.subrange(0, n as int), b.subrange(0, n as int), fuel)
        }),
{
    let n = if a.len() < b.len() { a.len() } else { b.len() };
    let pa = a.subrange(0, n as int);
    let pb = b.subrange(0, n as int);
    if n > 0 {
        assert(pa.subrange(0, n - 1) =~= a.subrange(0, n - 1));
        assert(pb.subrange(0, n - 1) =~= b.subrange(0, n - 1));
    }
}


impl MorphismType {
    /// The estimated cost of a morphism of this type, within the step budget; `None`
    /// where the budget runs out or the cost does not fit in a `u64`.
    pub fn try_estimated_cost(&self) -> (r: Option<u64>)
        ensures
            match r {
                Some(c) => spec_cost(self@.src, self@.dst, STEP_BUDGET as nat) == Some(c as nat),
                None => spec_cost(self@.src, self@.dst, STEP_BUDGET as nat) is None
                    || spec_cost(self@.src, self@.dst, STEP_BUDGET as nat).unwrap() > u64::MAX,
            },
    {
        cost_f(&self.src_type, &self.dst_type, STEP_BUDGET)
    }

    /// The estimated cost of a morphism of this type: 0 where the source is a subtype of
    /// the destination, otherwise 10 for each differing component.
    pub fn estimated_cost(&self) -> (r: u64)
        requires
            spec_cost(self@.src, self@.dst, STEP_BUDGET as nat) matches Some(c) && c <= u64::MAX,
        ensures
            spec_cost(self@.src, self@.dst, STEP_BUDGET as nat) == Some(r as nat),
    {
        match self.try_estimated_cost() {
            Some(c) => c,
            None => 0,
        }
    }
}


} // verus!
