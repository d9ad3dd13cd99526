//! Constraint systems over type terms: equations, subtype and trait constraints, and
//! the unification functions built on them.

use std::collections::HashMap;
use vstd::prelude::*;
use vstd::std_specs::iter::IteratorSpec;
use crate::term::{TypeTerm, ConstraintPair, TermV, FieldV, StructMember, EnumVariant, term_view, terms_view, members_view, variants_view, opt_view, lemma_terms_view, lemma_members_view, lemma_variants_view, lemma_view_variant, lemma_opt_view, lemma_members_view_push, lemma_variants_view_push, lemma_terms_view_push, lemma_terms_view_prepend, lemma_terms_view_append, copy_prefix};
use crate::term_ops::spec_strip;
use crate::pnf::{ladder2_exec, find_member, find_variant, lemma_find_field};
use crate::substitution::Substitution;
use crate::saturation::{lemma_saturate_done, lemma_saturate_fails, lemma_saturate_zero};
use crate::term_ops::spec_unit;
use crate::substitution::{HashMapSubst, subst_view};
use crate::semantics::{Cp2V, ErrV, CsV, cp2, err, spec_saturate, spec_solve, spec_new_cs, spec_unify, spec_subtype_unify, spec_parallel_unify, spec_bind, spec_norm_applied, spec_eval_eq, spec_eval_sub, spec_sub_repr, spec_rev_pairs, spec_field_pairs, spec_eq_fields, spec_add_upper, spec_add_lower, spec_sub_seq, spec_sub_fields, spec_sub_ladder, spec_sub_seq_spec, spec_fix_halos, spec_sub_args, spec_eval_trait, spec_trait_rungs, spec_trait_repr, spec_trait_fields, spec_eq_loop, spec_trait_loop, spec_sub_loop, spec_strip_map, with_sigma};

verus! {

broadcast use vstd::std_specs::hash::group_hash_axioms;

/// The step budget of the solver and of normalization.  A computation that needs more
/// steps, or that reaches an unsupported case, has no result.
pub const STEP_BUDGET: u64 = u64::MAX;

/// A violated constraint: the address of the failing part inside the constraint, and the
/// two terms that did not fit.
#[derive(Debug)]
pub struct ConstraintError {
    pub addr: Vec<usize>,
    pub t1: TypeTerm,
    pub t2: TypeTerm,
}

/// A bound of a quantified type, with its address inside the term.
#[derive(PartialEq, Eq, Hash, Debug)]
pub struct ConstraintEntry {
    pub addr: Vec<usize>,
    pub bound: ConstraintPair,
}

/// A constraint between two terms, with its address inside the constraint it came from.
#[derive(Debug)]
pub struct CP2 {
    pub addr: Vec<usize>,
    pub lhs: TypeTerm,
    pub rhs: TypeTerm,
}

impl View for CP2 {
    type V = Cp2V;

    open spec fn view(&self) -> Cp2V {
        cp2(self.addr@, self.lhs@, self.rhs@)
    }
}

impl View for ConstraintError {
    type V = ErrV;

    open spec fn view(&self) -> ErrV {
        ErrV { addr: self.addr@, t1: self.t1@, t2: self.t2@ }
    }
}

pub open spec fn cp2s_view(s: Seq<CP2>) -> Seq<Cp2V> {
    s.map_values(|p: CP2| p@)
}

/// Result models.
pub open spec fn res_unit_view(r: Result<(), ConstraintError>) -> Result<(), ErrV> {
    match r {
        Ok(()) => Ok(()),
        Err(e) => Err(e@),
    }
}

pub open spec fn res_term_view(r: Result<TypeTerm, ConstraintError>) -> Result<TermV, ErrV> {
    match r {
        Ok(t) => Ok(t@),
        Err(e) => Err(e@),
    }
}

impl CP2 {
    /// A constraint at the root address.
    pub fn new(lhs: TypeTerm, rhs: TypeTerm) -> (r: CP2)
        ensures
            r@ == cp2(Seq::empty(), lhs@, rhs@),
    {
        let r = CP2 { lhs, rhs, addr: Vec::new() };
        assert(r.addr@ =~= Seq::<usize>::empty());
        r
    }

    /// A copy of this constraint.
    pub fn copy(&self) -> (r: CP2)
        ensures
            r@ == self@,
    {
        CP2 { addr: copy_addr(&self.addr), lhs: self.lhs.copy(), rhs: self.rhs.copy() }
    }
}

/// A copy of an address.
pub fn copy_addr(a: &Vec<usize>) -> (r: Vec<usize>)
    ensures
        r@ == a@,
{
    let mut r: Vec<usize> = Vec::new();
    let mut i: usize = 0;
    while i < a.len()
        invariant
            i <= a.len(),
            r@ == a@.subrange(0, i as int),
        decreases a.len() - i,
    {
        r.push(a[i]);
        assert(a@.subrange(0, i + 1) =~= a@.subrange(0, i as int).push(a@[i as int]));
        i += 1;
    }
    assert(a@.subrange(0, a.len() as int) =~= a@);
    r
}

/// An address extended by one index.
pub fn addr_push(a: &Vec<usize>, i: usize) -> (r: Vec<usize>)
    ensures
        r@ == a@.push(i),
{
    let mut r = copy_addr(a);
    r.push(i);
    r
}

/// A copy of a hash-map substitution.
pub fn copy_subst(s: &HashMapSubst) -> (r: HashMapSubst)
    ensures
        subst_view(r) == subst_view(*s),
{
    let mut r: HashMapSubst = HashMap::new();
    let ghost v = vstd::std_specs::hash::spec_hash_map_iter(s).remaining();
    for kv in it: s.iter()
        invariant
            v == vstd::std_specs::hash::spec_hash_map_iter(s).remaining(),
            it.seq() == v,
            forall|x: u64| #[trigger] r@.contains_key(x) ==> s@.contains_key(x) && r@[x]@ == s@[x]@,
            forall|j: int| 0 <= j < it.index() ==> #[trigger] r@.contains_key(*v[j].0),
    {
        let (k, t) = kv;
        let t2 = t.copy();
        r.insert(*k, t2);
    }
    proof {
        assert forall|x: u64| s@.contains_key(x) implies #[trigger] r@.contains_key(x) by {
            assert(v.contains((&x, &s@[x])));
            let j = choose|j: int| 0 <= j < v.len() && v[j] == (&x, &s@[x]);
            assert(r@.contains_key(*v[j].0));
        }
        assert(subst_view(r) =~= subst_view(*s));
    }
    r
}


/// A constraint system: the substitution found so far, the subtype bounds of variables,
/// and the constraints still to solve.
pub struct ConstraintSystem {
    sigma: HashMapSubst,
    upper_bounds: HashMapSubst,
    lower_bounds: HashMapSubst,
    equal_pairs: Vec<CP2>,
    subtype_pairs: Vec<CP2>,
    trait_pairs: Vec<CP2>,
    parallel_pairs: Vec<CP2>,
}

impl View for ConstraintSystem {
    type V = CsV;

    closed spec fn view(&self) -> CsV {
        CsV {
            sigma: subst_view(self.sigma),
            upper: subst_view(self.upper_bounds),
            lower: subst_view(self.lower_bounds),
            eqs: cp2s_view(self.equal_pairs@),
            subs: cp2s_view(self.subtype_pairs@),
            traits: cp2s_view(self.trait_pairs@),
            pars: cp2s_view(self.parallel_pairs@),
        }
    }
}

proof fn lemma_cp2s_push(s: Seq<CP2>, x: CP2)
    ensures
        cp2s_view(s.push(x)) == cp2s_view(s).push(x@),
{
    assert(cp2s_view(s.push(x)) =~= cp2s_view(s).push(x@));
}

proof fn lemma_cp2s_prefix(s: Seq<CP2>, n: int)
    requires
        0 <= n <= s.len(),
    ensures
        cp2s_view(s.subrange(0, n)) == cp2s_view(s).subrange(0, n),
{
    assert(cp2s_view(s.subrange(0, n)) =~= cp2s_view(s).subrange(0, n));
}

/// Every term of `s` with `s` applied, then normalized, within the step budget.
pub(crate) fn saturate_f(s: &HashMapSubst, fuel: u64) -> (r: Option<HashMapSubst>)
    ensures
        spec_saturate(subst_view(*s), fuel as nat) == match r {
            Some(m) => Some(subst_view(m)),
            None => None,
        },
    decreases fuel, 0nat,
{
    if fuel == 0 {
        proof { lemma_saturate_zero(subst_view(*s)); }
        return None;
    }
    let f = fuel - 1;
    let ghost sv = subst_view(*s);
    let mut r: HashMapSubst = HashMap::new();
    let ghost v = vstd::std_specs::hash::spec_hash_map_iter(s).remaining();
    for kv in it: s.iter()
        invariant
            v == vstd::std_specs::hash::spec_hash_map_iter(s).remaining(),
            it.seq() == v,
            f + 1 == fuel,
            sv == subst_view(*s),
            forall|x: u64| #[trigger] r@.contains_key(x) ==> s@.contains_key(x)
                && spec_norm_applied(sv[x], sv, f as nat) == Some(r@[x]@),
            forall|j: int| 0 <= j < it.index() ==> #[trigger] r@.contains_key(*v[j].0),
    {
        let (k, t) = kv;
        assert(s@.contains_key(*k) && s@[*k] == *t);
        assert(sv[*k] == t@);
        let res = t.applied(s).normalize_core(f);
        proof { reveal(spec_norm_applied); }
        match res {
            Some(n) => {
                r.insert(*k, n);
            },
            None => {
                assert(sv.contains_key(*k));
                proof { lemma_saturate_fails(sv, *k, fuel as nat); }
                return None;
            },
        }
    }
    proof {
        assert forall|x: u64| s@.contains_key(x) implies #[trigger] r@.contains_key(x) by {
            assert(v.contains((&x, &s@[x])));
            let j = choose|j: int| 0 <= j < v.len() && v[j] == (&x, &s@[x]);
            assert(r@.contains_key(*v[j].0));
        }
        let rv = subst_view(r);
        assert forall|x: u64| rv.contains_key(x) <==> sv.contains_key(x) by {}
        assert forall|x: u64| rv.contains_key(x) implies spec_norm_applied(sv[x], sv, f as nat) == Some(#[trigger] rv[x]) by {}
        lemma_saturate_done(sv, rv, fuel as nat);
    }
    Some(r)
}

impl ConstraintSystem {
    /// A system with the given equations, subtype, trait and parallel constraints, and an
    /// empty substitution.
    pub fn new(equal_pairs: Vec<CP2>, subtype_pairs: Vec<CP2>, trait_pairs: Vec<CP2>, parallel_pairs: Vec<CP2>) -> (r: ConstraintSystem)
        ensures
            r@ == spec_new_cs(cp2s_view(equal_pairs@), cp2s_view(subtype_pairs@), cp2s_view(trait_pairs@), cp2s_view(parallel_pairs@)),
    {
        let r = ConstraintSystem {
            sigma: HashMap::new(),
            equal_pairs,
            subtype_pairs,
            trait_pairs,
            parallel_pairs,
            upper_bounds: HashMap::new(),
            lower_bounds: HashMap::new(),
        };
        assert(subst_view(r.sigma) =~= Map::<u64, TermV>::empty());
        assert(subst_view(r.upper_bounds) =~= Map::<u64, TermV>::empty());
        assert(subst_view(r.lower_bounds) =~= Map::<u64, TermV>::empty());
        r
    }

    /// A system of equations only.
    pub fn new_eq(eqs: Vec<CP2>) -> (r: ConstraintSystem)
        ensures
            r@ == spec_new_cs(cp2s_view(eqs@), Seq::empty(), Seq::empty(), Seq::empty()),
    {
        let r = ConstraintSystem::new(eqs, Vec::new(), Vec::new(), Vec::new());
        assert(cp2s_view(Seq::<CP2>::empty()) =~= Seq::<Cp2V>::empty());
        r
    }

    /// A system of subtype constraints only.
    pub fn new_sub(subs: Vec<CP2>) -> (r: ConstraintSystem)
        ensures
            r@ == spec_new_cs(Seq::empty(), cp2s_view(subs@), Seq::empty(), Seq::empty()),
    {
        let r = ConstraintSystem::new(Vec::new(), subs, Vec::new(), Vec::new());
        assert(cp2s_view(Seq::<CP2>::empty()) =~= Seq::<Cp2V>::empty());
        r
    }

    /// A system of trait constraints only.
    pub fn new_trait(traits: Vec<CP2>) -> (r: ConstraintSystem)
        ensures
            r@ == spec_new_cs(Seq::empty(), Seq::empty(), cp2s_view(traits@), Seq::empty()),
    {
        let r = ConstraintSystem::new(Vec::new(), Vec::new(), traits, Vec::new());
        assert(cp2s_view(Seq::<CP2>::empty()) =~= Seq::<Cp2V>::empty());
        r
    }

    /// A system of parallel constraints only.
    pub fn new_parallel(parallels: Vec<CP2>) -> (r: ConstraintSystem)
        ensures
            r@ == spec_new_cs(Seq::empty(), Seq::empty(), Seq::empty(), cp2s_view(parallels@)),
    {
        let r = ConstraintSystem::new(Vec::new(), Vec::new(), Vec::new(), parallels);
        assert(cp2s_view(Seq::<CP2>::empty()) =~= Seq::<Cp2V>::empty());
        r
    }

    /// Binds variable `v` to `t` (with the occurs check), then saturates the substitution.
    fn bind_f(&mut self, addr: &Vec<usize>, v: u64, t: TypeTerm, fuel: u64) -> (r: Option<Result<(), ConstraintError>>)
        ensures
            spec_bind(old(self)@, addr@, v, t@, fuel as nat) == match r {
                Some(x) => Some((final(self)@, res_unit_view(x))),
                None => None,
            },
        decreases fuel, 1nat,
    {
        if !t.contains_var(v) {
            let mut s2 = copy_subst(&self.sigma);
            s2.insert(v, t);
            assert(subst_view(s2) =~= subst_view(self.sigma).insert(v, t@));
            match saturate_f(&s2, fuel) {
                Some(s3) => {
                    self.sigma = s3;
                    Some(Ok(()))
                },
                None => None,
            }
        } else if t.same(&TypeTerm::Var(v)) {
            Some(Ok(()))
        } else {
            Some(Err(ConstraintError { addr: copy_addr(addr), t1: TypeTerm::Var(v), t2: t }))
        }
    }
}

/// Appends the pairs `(a[i], b[i])` at addresses `addr ++ [i]`, last index first.
fn push_rev_pairs(out: &mut Vec<CP2>, addr: &Vec<usize>, a: &Vec<TypeTerm>, b: &Vec<TypeTerm>)
    requires
        a.len() == b.len(),
    ensures
        cp2s_view(final(out)@) == cp2s_view(old(out)@) + spec_rev_pairs(addr@, terms_view(a@), terms_view(b@)),
{
    let ghost sa = terms_view(a@);
    let ghost sb = terms_view(b@);
    let ghost target = cp2s_view(out@) + spec_rev_pairs(addr@, sa, sb);
    proof {
        lemma_terms_view(a@);
        lemma_terms_view(b@);
        assert(sa.subrange(0, a.len() as int) =~= sa);
        assert(sb.subrange(0, b.len() as int) =~= sb);
    }
    let mut k: usize = a.len();
    while k > 0
        invariant
            k <= a.len(),
            a.len() == b.len(),
            sa == terms_view(a@),
            sb == terms_view(b@),
            sa.len() == a.len(),
            sb.len() == b.len(),
            forall|j: int| 0 <= j < a.len() ==> #[trigger] sa[j] == term_view(a@[j]),
            forall|j: int| 0 <= j < b.len() ==> #[trigger] sb[j] == term_view(b@[j]),
            cp2s_view(out@) + spec_rev_pairs(addr@, sa.subrange(0, k as int), sb.subrange(0, k as int)) == target,
        decreases k,
    {
        let ghost pre = cp2s_view(out@);
        let ghost ska = sa.subrange(0, k as int);
        let ghost skb = sb.subrange(0, k as int);
        assert(ska.subrange(0, k - 1) =~= sa.subrange(0, k - 1));
        assert(skb.subrange(0, k - 1) =~= sb.subrange(0, k - 1));
        let x = CP2 { addr: addr_push(addr, k - 1), lhs: a[k - 1].copy(), rhs: b[k - 1].copy() };
        assert(x@ == cp2(addr@.push((k - 1) as usize), ska[k - 1], skb[k - 1]));
        proof { lemma_cp2s_push(out@, x); }
        out.push(x);
        assert(pre + spec_rev_pairs(addr@, ska, skb) =~= pre.push(x@) + spec_rev_pairs(addr@, sa.subrange(0, k - 1), sb.subrange(0, k - 1)));
        k -= 1;
    }
    assert(spec_rev_pairs(addr@, sa.subrange(0, 0), sb.subrange(0, 0)) =~= Seq::<Cp2V>::empty());
    assert(cp2s_view(out@) + Seq::<Cp2V>::empty() =~= cp2s_view(out@));
}

/// Appends the pairs of member types `(a[i].ty, b[i].ty)` at addresses `addr ++ [i]`, in order.
fn push_member_pairs(out: &mut Vec<CP2>, addr: &Vec<usize>, a: &Vec<StructMember>, b: &Vec<StructMember>)
    requires
        a.len() == b.len(),
    ensures
        cp2s_view(final(out)@) == cp2s_view(old(out)@) + spec_field_pairs(addr@, members_view(a@), members_view(b@)),
{
    let ghost sa = members_view(a@);
    let ghost sb = members_view(b@);
    let ghost o0 = cp2s_view(out@);
    proof {
        lemma_members_view(a@);
        lemma_members_view(b@);
    }
    let mut k: usize = 0;
    assert(spec_field_pairs(addr@, sa.subrange(0, 0), sb.subrange(0, 0)) =~= Seq::<Cp2V>::empty());
    assert(o0 + Seq::<Cp2V>::empty() =~= o0);
    while k < a.len()
        invariant
            k <= a.len(),
            a.len() == b.len(),
            sa == members_view(a@),
            sb == members_view(b@),
            sa.len() == a.len(),
            sb.len() == b.len(),
            forall|j: int| 0 <= j < a.len() ==> #[trigger] sa[j] == a@[j]@,
            forall|j: int| 0 <= j < b.len() ==> #[trigger] sb[j] == b@[j]@,
            cp2s_view(out@) == o0 + spec_field_pairs(addr@, sa.subrange(0, k as int), sb.subrange(0, k as int)),
        decreases a.len() - k,
    {
        let ghost ska = sa.subrange(0, k + 1);
        let ghost skb = sb.subrange(0, k + 1);
        assert(ska.subrange(0, k as int) =~= sa.subrange(0, k as int));
        assert(skb.subrange(0, k as int) =~= sb.subrange(0, k as int));
        assert(sa[k as int] == a@[k as int]@);
        assert(sb[k as int] == b@[k as int]@);
        let x = CP2 { addr: addr_push(addr, k), lhs: a[k].ty.copy(), rhs: b[k].ty.copy() };
        proof { lemma_cp2s_push(out@, x); }
        out.push(x);
        assert(cp2s_view(out@) =~= o0 + spec_field_pairs(addr@, ska, skb));
        k += 1;
    }
    assert(sa.subrange(0, a.len() as int) =~= sa);
    assert(sb.subrange(0, b.len() as int) =~= sb);
}

/// Appends the pairs of variant types `(a[i].ty, b[i].ty)` at addresses `addr ++ [i]`, in order.
fn push_variant_pairs(out: &mut Vec<CP2>, addr: &Vec<usize>, a: &Vec<EnumVariant>, b: &Vec<EnumVariant>)
    requires
        a.len() == b.len(),
    ensures
        cp2s_view(final(out)@) == cp2s_view(old(out)@) + spec_field_pairs(addr@, variants_view(a@), variants_view(b@)),
{
    let ghost sa = variants_view(a@);
    let ghost sb = variants_view(b@);
    let ghost o0 = cp2s_view(out@);
    proof {
        lemma_variants_view(a@);
        lemma_variants_view(b@);
    }
    let mut k: usize = 0;
    assert(spec_field_pairs(addr@, sa.subrange(0, 0), sb.subrange(0, 0)) =~= Seq::<Cp2V>::empty());
    assert(o0 + Seq::<Cp2V>::empty() =~= o0);
    while k < a.len()
        invariant
            k <= a.len(),
            a.len() == b.len(),
            sa == variants_view(a@),
            sb == variants_view(b@),
            sa.len() == a.len(),
            sb.len() == b.len(),
            forall|j: int| 0 <= j < a.len() ==> #[trigger] sa[j] == a@[j]@,
            forall|j: int| 0 <= j < b.len() ==> #[trigger] sb[j] == b@[j]@,
            cp2s_view(out@) == o0 + spec_field_pairs(addr@, sa.subrange(0, k as int), sb.subrange(0, k as int)),
        decreases a.len() - k,
    {
        let ghost ska = sa.subrange(0, k + 1);
        let ghost skb = sb.subrange(0, k + 1);
        assert(ska.subrange(0, k as int) =~= sa.subrange(0, k as int));
        assert(skb.subrange(0, k as int) =~= sb.subrange(0, k as int));
        assert(sa[k as int] == a@[k as int]@);
        assert(sb[k as int] == b@[k as int]@);
        let x = CP2 { addr: addr_push(addr, k), lhs: a[k].ty.copy(), rhs: b[k].ty.copy() };
        proof { lemma_cp2s_push(out@, x); }
        out.push(x);
        assert(cp2s_view(out@) =~= o0 + spec_field_pairs(addr@, ska, skb));
        k += 1;
    }
    assert(sa.subrange(0, a.len() as int) =~= sa);
    assert(sb.subrange(0, b.len() as int) =~= sb);
}

/// The error for a constraint: its address and both sides.
fn error_of(p: &CP2) -> (r: ConstraintError)
    ensures
        r@ == err(p.addr@, p.lhs@, p.rhs@),
{
    ConstraintError { addr: copy_addr(&p.addr), t1: p.lhs.copy(), t2: p.rhs.copy() }
}

/// The result of comparing two atoms: equal atoms fit, others give the constraint's error.
fn atom_result(eq: bool, p: &CP2) -> (r: Result<(), ConstraintError>)
    ensures
        res_unit_view(r) == if eq { Ok(()) } else { Err(err(p.addr@, p.lhs@, p.rhs@)) },
{
    if eq {
        Ok(())
    } else {
        Err(error_of(p))
    }
}

impl ConstraintSystem {
    /// The representations of two structs (or enums) as subtypes.
    fn sub_repr_f(&mut self, p: &CP2, lr: &Option<Box<TypeTerm>>, rr: &Option<Box<TypeTerm>>, fuel: u64) -> (r: Option<Result<(), ConstraintError>>)
        ensures
            spec_sub_repr(old(self)@, p@, opt_view(*lr), opt_view(*rr), fuel as nat) == match r {
                Some(x) => Some((final(self)@, res_unit_view(x))),
                None => None,
            },
        decreases fuel, 1nat,
    {
        proof {
            lemma_opt_view(*lr);
            lemma_opt_view(*rr);
        }
        match rr {
            Some(rrb) => match lr {
                Some(lrb) => {
                    let q = CP2 { addr: copy_addr(&p.addr), lhs: lrb.copy(), rhs: rrb.copy() };
                    match self.eval_sub_f(q, fuel) {
                        None => None,
                        Some(Err(e2)) => Some(Err(e2)),
                        Some(Ok(_)) => Some(Ok(())),
                    }
                },
                None => Some(Err(error_of(p))),
            },
            None => Some(Ok(())),
        }
    }

    /// An equation between two sequences: the representations as an equation first, then
    /// the items as a new equation.
    fn eq_seq_f(&mut self, p: &CP2, f: u64) -> (r: Option<Result<(), ConstraintError>>)
        requires
            p.lhs@ is Sequence,
            p.rhs@ is Sequence,
        ensures
            spec_eval_eq(old(self)@, p@, (f + 1) as nat) == match r {
                Some(x) => Some((final(self)@, res_unit_view(x))),
                None => None,
            },
        decreases f, 1nat,
    {
        proof {
            lemma_view_variant(&p.lhs);
            lemma_view_variant(&p.rhs);
        }
        match (&p.lhs, &p.rhs) {
            (TypeTerm::Sequence { seq_repr: lr, item: li }, TypeTerm::Sequence { seq_repr: rr, item: ri }) => {
                proof {
                    lemma_opt_view(*lr);
                    lemma_opt_view(*rr);
                }
                let a1 = addr_push(&p.addr, 1);
                match rr {
                    Some(rrb) => match lr {
                        Some(lrb) => {
                            let q = CP2 { addr: addr_push(&p.addr, 0), lhs: lrb.copy(), rhs: rrb.copy() };
                            match self.eval_eq_f(q, f) {
                                None => None,
                                Some(Err(e2)) => Some(Err(e2)),
                                Some(Ok(())) => {
                                    let x = CP2 { addr: a1, lhs: li.copy(), rhs: ri.copy() };
                                    proof { lemma_cp2s_push(self.equal_pairs@, x); }
                                    self.equal_pairs.push(x);
                                    Some(Ok(()))
                                },
                            }
                        },
                        None => Some(Err(ConstraintError { addr: addr_push(&p.addr, 0), t1: p.lhs.copy(), t2: p.rhs.copy() })),
                    },
                    None => {
                        let x = CP2 { addr: a1, lhs: li.copy(), rhs: ri.copy() };
                        proof { lemma_cp2s_push(self.equal_pairs@, x); }
                        self.equal_pairs.push(x);
                        Some(Ok(()))
                    },
                }
            },
            _ => None,
        }
    }

    /// An equation between two ladders or two applications: one new equation per position.
    fn eq_args_f(&mut self, p: &CP2, f: u64) -> (r: Option<Result<(), ConstraintError>>)
        requires
            (p.lhs@ is Ladder && p.rhs@ is Ladder) || (p.lhs@ is Spec && p.rhs@ is Spec),
        ensures
            spec_eval_eq(old(self)@, p@, (f + 1) as nat) == match r {
                Some(x) => Some((final(self)@, res_unit_view(x))),
                None => None,
            },
        decreases f, 1nat,
    {
        proof {
            lemma_view_variant(&p.lhs);
            lemma_view_variant(&p.rhs);
        }
        match (&p.lhs, &p.rhs) {
            (TypeTerm::Ladder(a1), TypeTerm::Ladder(a2)) => {
                proof {
                    lemma_terms_view(a1@);
                    lemma_terms_view(a2@);
                }
                if a1.len() == a2.len() {
                    push_rev_pairs(&mut self.equal_pairs, &p.addr, a1, a2);
                    Some(Ok(()))
                } else {
                    Some(Err(error_of(&p)))
                }
            },
            (TypeTerm::Spec(a1), TypeTerm::Spec(a2)) => {
                proof {
                    lemma_terms_view(a1@);
                    lemma_terms_view(a2@);
                }
                if a1.len() == a2.len() {
                    push_rev_pairs(&mut self.equal_pairs, &p.addr, a1, a2);
                    Some(Ok(()))
                } else {
                    Some(Err(error_of(&p)))
                }
            },
            _ => None,
        }
    }

    /// An equation between two structs or two enums.
    #[verifier::rlimit(40)]
    fn eq_record_f(&mut self, p: &CP2, f: u64) -> (r: Option<Result<(), ConstraintError>>)
        requires
            (p.lhs@ is Struct && p.rhs@ is Struct) || (p.lhs@ is Enum && p.rhs@ is Enum),
        ensures
            spec_eval_eq(old(self)@, p@, (f + 1) as nat) == match r {
                Some(x) => Some((final(self)@, res_unit_view(x))),
                None => None,
            },
        decreases f, 2nat,
    {
        proof {
            lemma_view_variant(&p.lhs);
            lemma_view_variant(&p.rhs);
        }
        match (&p.lhs, &p.rhs) {
            (TypeTerm::Struct { struct_repr: lr, members: lm }, TypeTerm::Struct { struct_repr: rr, members: rm }) => {
                proof {
                    lemma_members_view(lm@);
                    lemma_members_view(rm@);
                }
                assert(spec_eval_eq(self@, p@, (f + 1) as nat) == spec_eq_fields(self@, p@, opt_view(*lr), opt_view(*rr), members_view(lm@), members_view(rm@), f as nat));
                match self.sub_repr_f(&p, lr, rr, f) {
                    None => None,
                    Some(Err(e2)) => Some(Err(e2)),
                    Some(Ok(())) => if lm.len() == rm.len() {
                        push_member_pairs(&mut self.equal_pairs, &p.addr, lm, rm);
                        Some(Ok(()))
                    } else {
                        Some(Err(error_of(&p)))
                    },
                }
            },
            (TypeTerm::Enum { enum_repr: lr, variants: lm }, TypeTerm::Enum { enum_repr: rr, variants: rm }) => {
                proof {
                    lemma_variants_view(lm@);
                    lemma_variants_view(rm@);
                }
                assert(spec_eval_eq(self@, p@, (f + 1) as nat) == spec_eq_fields(self@, p@, opt_view(*lr), opt_view(*rr), variants_view(lm@), variants_view(rm@), f as nat));
                match self.sub_repr_f(&p, lr, rr, f) {
                    None => None,
                    Some(Err(e2)) => Some(Err(e2)),
                    Some(Ok(())) => if lm.len() == rm.len() {
                        push_variant_pairs(&mut self.equal_pairs, &p.addr, lm, rm);
                        Some(Ok(()))
                    } else {
                        Some(Err(error_of(&p)))
                    },
                }
            },
            _ => None,
        }
    }

    /// One equation: variables are bound, atoms compared, compound terms split into new
    /// equations.
    fn eval_eq_f(&mut self, p: CP2, fuel: u64) -> (r: Option<Result<(), ConstraintError>>)
        ensures
            spec_eval_eq(old(self)@, p@, fuel as nat) == match r {
                Some(x) => Some((final(self)@, res_unit_view(x))),
                None => None,
            },
        decreases fuel, 0nat,
    {
        if fuel == 0 {
            return None;
        }
        let f = fuel - 1;
        proof {
            lemma_view_variant(&p.lhs);
            lemma_view_variant(&p.rhs);
        }
        match (&p.lhs, &p.rhs) {
            (TypeTerm::Var(v), _) => self.bind_f(&p.addr, *v, p.rhs.copy(), f),
            (_, TypeTerm::Var(v)) => self.bind_f(&p.addr, *v, p.lhs.copy(), f),
            (TypeTerm::Id(a), TypeTerm::Id(b)) => Some(atom_result(*a == *b, &p)),
            (TypeTerm::Num(a), TypeTerm::Num(b)) => Some(atom_result(*a == *b, &p)),
            (TypeTerm::Char(a), TypeTerm::Char(b)) => Some(atom_result(*a == *b, &p)),
            (TypeTerm::Ladder(..), TypeTerm::Ladder(..)) => self.eq_args_f(&p, f),
            (TypeTerm::Spec(..), TypeTerm::Spec(..)) => self.eq_args_f(&p, f),
            (TypeTerm::Sequence { .. }, TypeTerm::Sequence { .. }) => self.eq_seq_f(&p, f),
            (TypeTerm::Struct { .. }, TypeTerm::Struct { .. }) => self.eq_record_f(&p, f),
            (TypeTerm::Enum { .. }, TypeTerm::Enum { .. }) => self.eq_record_f(&p, f),
            _ => Some(Err(error_of(&p))),
        }
    }

    /// Adds `new` as upper bound of variable `v`; the result tells whether that succeeded.
    fn add_upper_f(&mut self, v: u64, new: TypeTerm, fuel: u64) -> (r: Option<bool>)
        ensures
            spec_add_upper(old(self)@, v, new@, fuel as nat) == match r {
                Some(b) => Some((final(self)@, b)),
                None => None,
            },
        decreases fuel, 0nat,
    {
        if fuel == 0 {
            return None;
        }
        let f = fuel - 1;
        if new.same(&TypeTerm::Var(v)) {
            return Some(true);
        }
        if new.contains_var(v) {
            return Some(false);
        }
        let ub = match self.upper_bounds.get(&v) {
            Some(t) => Some(t.copy()),
            None => None,
        };
        match ub {
            Some(ub) => {
                let q = CP2 { addr: Vec::new(), lhs: new.copy(), rhs: ub };
                assert(q.addr@ =~= Seq::<usize>::empty());
                match self.eval_sub_f(q, f) {
                    None => None,
                    Some(Ok(_)) => {
                        let ghost old_ub = subst_view(self.upper_bounds);
                        self.upper_bounds.insert(v, new);
                        assert(subst_view(self.upper_bounds) =~= old_ub.insert(v, new@));
                        Some(true)
                    },
                    Some(Err(_)) => Some(false),
                }
            },
            None => {
                let ghost old_ub = subst_view(self.upper_bounds);
                self.upper_bounds.insert(v, new);
                assert(subst_view(self.upper_bounds) =~= old_ub.insert(v, new@));
                Some(true)
            },
        }
    }

    /// Adds `new` as lower bound of variable `v`; the result tells whether that succeeded.
    fn add_lower_f(&mut self, v: u64, new: TypeTerm, fuel: u64) -> (r: Option<bool>)
        ensures
            spec_add_lower(old(self)@, v, new@, fuel as nat) == match r {
                Some(b) => Some((final(self)@, b)),
                None => None,
            },
        decreases fuel, 0nat,
    {
        if fuel == 0 {
            return None;
        }
        let f = fuel - 1;
        if new.same(&TypeTerm::Var(v)) {
            return Some(true);
        }
        if new.contains_var(v) {
            return Some(false);
        }
        let lb = match self.lower_bounds.get(&v) {
            Some(t) => Some(t.copy()),
            None => None,
        };
        match lb {
            Some(lb) => {
                let q = CP2 { addr: Vec::new(), lhs: lb.copy(), rhs: new.copy() };
                assert(q.addr@ =~= Seq::<usize>::empty());
                match self.eval_sub_f(q, f) {
                    None => None,
                    Some(Ok(_)) => {
                        let ghost old_lb = subst_view(self.lower_bounds);
                        self.lower_bounds.insert(v, new);
                        assert(subst_view(self.lower_bounds) =~= old_lb.insert(v, new@));
                        Some(true)
                    },
                    Some(Err(_)) => {
                        let q2 = CP2 { addr: Vec::new(), lhs: new, rhs: lb };
                        assert(q2.addr@ =~= Seq::<usize>::empty());
                        match self.eval_sub_f(q2, f) {
                            None => None,
                            Some(Ok(_)) => Some(true),
                            Some(Err(_)) => Some(false),
                        }
                    },
                }
            },
            None => {
                let ghost old_lb = subst_view(self.lower_bounds);
                self.lower_bounds.insert(v, new);
                assert(subst_view(self.lower_bounds) =~= old_lb.insert(v, new@));
                Some(true)
            },
        }
    }

    /// `seq <= seq`: representation, then item.
    fn sub_seq_f(&mut self, p: &CP2, lr: &Option<Box<TypeTerm>>, li: &TypeTerm, rr: &Option<Box<TypeTerm>>, ri: &TypeTerm, fuel: u64) -> (r: Option<Result<TypeTerm, ConstraintError>>)
        ensures
            spec_sub_seq(old(self)@, p@, opt_view(*lr), Box::new(li@), opt_view(*rr), Box::new(ri@), fuel as nat) == match r {
                Some(x) => Some((final(self)@, res_term_view(x))),
                None => None,
            },
        decreases fuel, 1nat,
    {
        proof {
            lemma_opt_view(*lr);
            lemma_opt_view(*rr);
        }
        let psi_repr: Option<Box<TypeTerm>> = match rr {
            Some(rrb) => match lr {
                Some(lrb) => {
                    let q = CP2 { addr: addr_push(&p.addr, 0), lhs: lrb.copy(), rhs: rrb.copy() };
                    match self.eval_sub_f(q, fuel) {
                        None => {
                            return None;
                        },
                        Some(Err(e2)) => {
                            return Some(Err(e2));
                        },
                        Some(Ok(psi)) => Some(Box::new(psi)),
                    }
                },
                None => {
                    return Some(Err(ConstraintError { addr: addr_push(&p.addr, 0), t1: p.lhs.copy(), t2: p.rhs.copy() }));
                },
            },
            None => None,
        };
        proof { lemma_opt_view(psi_repr); }
        let q = CP2 { addr: addr_push(&p.addr, 1), lhs: li.copy(), rhs: ri.copy() };
        match self.eval_sub_f(q, fuel) {
            None => None,
            Some(Ok(psi_item)) => Some(Ok(TypeTerm::Sequence { seq_repr: psi_repr, item: Box::new(psi_item) }.strip())),
            Some(Err(e3)) => Some(Err(ConstraintError { addr: addr_push(&p.addr, 1), t1: e3.t1, t2: e3.t2 })),
        }
    }

    /// The member types of two structs as subtypes, in order; the result holds the halos.
    fn sub_members_f(&mut self, addr: &Vec<usize>, lm: &Vec<StructMember>, rm: &Vec<StructMember>, fuel: u64) -> (r: Option<Result<Vec<StructMember>, ConstraintError>>)
        ensures
            spec_sub_fields(old(self)@, addr@, members_view(lm@), members_view(rm@), 0, Seq::empty(), fuel as nat) == match r {
                Some(Ok(h)) => Some((final(self)@, Ok(members_view(h@)))),
                Some(Err(e)) => Some((final(self)@, Err(e@))),
                None => None,
            },
        decreases fuel, 1nat,
    {
        let ghost slm = members_view(lm@);
        let ghost srm = members_view(rm@);
        proof {
            lemma_members_view(lm@);
            lemma_members_view(rm@);
        }
        let ghost target = spec_sub_fields(self@, addr@, slm, srm, 0, Seq::empty(), fuel as nat);
        let mut halo: Vec<StructMember> = Vec::new();
        assert(members_view(halo@) =~= Seq::<FieldV>::empty());
        let mut i: usize = 0;
        while i < lm.len() && i < rm.len()
            invariant
                slm == members_view(lm@),
                srm == members_view(rm@),
                slm.len() == lm.len(),
                srm.len() == rm.len(),
                forall|j: int| 0 <= j < lm.len() ==> #[trigger] slm[j] == lm@[j]@,
                forall|j: int| 0 <= j < rm.len() ==> #[trigger] srm[j] == rm@[j]@,
                spec_sub_fields(self@, addr@, slm, srm, i as nat, members_view(halo@), fuel as nat) == target,
                target == spec_sub_fields(old(self)@, addr@, members_view(lm@), members_view(rm@), 0, Seq::empty(), fuel as nat),
            decreases lm.len() - i,
        {
            assert(slm[i as int] == lm@[i as int]@);
            assert(srm[i as int] == rm@[i as int]@);
            let q = CP2 { addr: addr_push(addr, i), lhs: lm[i].ty.copy(), rhs: rm[i].ty.copy() };
            match self.eval_sub_f(q, fuel) {
                None => {
                    return None;
                },
                Some(Err(e)) => {
                    return Some(Err(e));
                },
                Some(Ok(psi)) => {
                    let m = StructMember { symbol: lm[i].symbol.clone(), ty: psi };
                    proof { lemma_members_view_push(halo@, m); }
                    halo.push(m);
                },
            }
            i += 1;
        }
        Some(Ok(halo))
    }

    /// The variant types of two enums as subtypes, in order; the result holds the halos.
    fn sub_variants_f(&mut self, addr: &Vec<usize>, lm: &Vec<EnumVariant>, rm: &Vec<EnumVariant>, fuel: u64) -> (r: Option<Result<Vec<EnumVariant>, ConstraintError>>)
        ensures
            spec_sub_fields(old(self)@, addr@, variants_view(lm@), variants_view(rm@), 0, Seq::empty(), fuel as nat) == match r {
                Some(Ok(h)) => Some((final(self)@, Ok(variants_view(h@)))),
                Some(Err(e)) => Some((final(self)@, Err(e@))),
                None => None,
            },
        decreases fuel, 1nat,
    {
        let ghost slm = variants_view(lm@);
        let ghost srm = variants_view(rm@);
        proof {
            lemma_variants_view(lm@);
            lemma_variants_view(rm@);
        }
        let ghost target = spec_sub_fields(self@, addr@, slm, srm, 0, Seq::empty(), fuel as nat);
        let mut halo: Vec<EnumVariant> = Vec::new();
        assert(variants_view(halo@) =~= Seq::<FieldV>::empty());
        let mut i: usize = 0;
        while i < lm.len() && i < rm.len()
            invariant
                slm == variants_view(lm@),
                srm == variants_view(rm@),
                slm.len() == lm.len(),
                srm.len() == rm.len(),
                forall|j: int| 0 <= j < lm.len() ==> #[trigger] slm[j] == lm@[j]@,
                forall|j: int| 0 <= j < rm.len() ==> #[trigger] srm[j] == rm@[j]@,
                spec_sub_fields(self@, addr@, slm, srm, i as nat, variants_view(halo@), fuel as nat) == target,
                target == spec_sub_fields(old(self)@, addr@, variants_view(lm@), variants_view(rm@), 0, Seq::empty(), fuel as nat),
            decreases lm.len() - i,
        {
            assert(slm[i as int] == lm@[i as int]@);
            assert(srm[i as int] == rm@[i as int]@);
            let q = CP2 { addr: addr_push(addr, i), lhs: lm[i].ty.copy(), rhs: rm[i].ty.copy() };
            match self.eval_sub_f(q, fuel) {
                None => {
                    return None;
                },
                Some(Err(e)) => {
                    return Some(Err(e));
                },
                Some(Ok(psi)) => {
                    let m = EnumVariant { symbol: lm[i].symbol.clone(), ty: psi };
                    proof { lemma_variants_view_push(halo@, m); }
                    halo.push(m);
                },
            }
            i += 1;
        }
        Some(Ok(halo))
    }

    /// Two ladders, rung by rung from the bottom.
    fn sub_ladder_f(&mut self, p: &CP2, a1: &Vec<TypeTerm>, a2: &Vec<TypeTerm>, fuel: u64) -> (r: Option<Result<TypeTerm, ConstraintError>>)
        ensures
            spec_sub_ladder(old(self)@, p@, terms_view(a1@), terms_view(a2@), a1.len() as nat, a2.len() as nat, Seq::empty(), fuel as nat) == match r {
                Some(x) => Some((final(self)@, res_term_view(x))),
                None => None,
            },
        decreases fuel, 1nat,
    {
        let ghost s1 = terms_view(a1@);
        let ghost s2 = terms_view(a2@);
        proof {
            lemma_terms_view(a1@);
            lemma_terms_view(a2@);
        }
        let ghost target = spec_sub_ladder(self@, p@, s1, s2, a1.len() as nat, a2.len() as nat, Seq::empty(), fuel as nat);
        let mut halo: Vec<TypeTerm> = Vec::new();
        assert(terms_view(halo@) =~= Seq::<TermV>::empty());
        let mut n1: usize = a1.len();
        let mut n2: usize = a2.len();
        while n2 > 0
            invariant
                n1 <= a1.len(),
                n2 <= a2.len(),
                s1 == terms_view(a1@),
                s2 == terms_view(a2@),
                s1.len() == a1.len(),
                s2.len() == a2.len(),
                forall|j: int| 0 <= j < a1.len() ==> #[trigger] s1[j] == term_view(a1@[j]),
                forall|j: int| 0 <= j < a2.len() ==> #[trigger] s2[j] == term_view(a2@[j]),
                spec_sub_ladder(self@, p@, s1, s2, n1 as nat, n2 as nat, terms_view(halo@), fuel as nat) == target,
                target == spec_sub_ladder(old(self)@, p@, terms_view(a1@), terms_view(a2@), a1.len() as nat, a2.len() as nat, Seq::empty(), fuel as nat),
            decreases n2,
        {
            if n1 == 0 {
                return Some(Err(ConstraintError { addr: Vec::new(), t1: p.lhs.copy(), t2: p.rhs.copy() }));
            }
            let i = n1 - 1;
            let lhs = a1[i].copy();
            let rhs = a2[n2 - 1].copy();
            let addr = addr_push(&p.addr, i);
            proof { lemma_view_variant(&rhs); }
            match &rhs {
                TypeTerm::Var(v) => {
                    match self.add_upper_f(*v, lhs.copy(), fuel) {
                        None => {
                            return None;
                        },
                        Some(false) => {
                            return Some(Err(ConstraintError { addr: copy_addr(&addr), t1: lhs.copy(), t2: rhs.copy() }));
                        },
                        Some(true) => {},
                    }
                    let ul: Vec<TypeTerm> = if n2 >= 2 {
                        let mut u: Vec<TypeTerm> = Vec::new();
                        let c = lhs.copy();
                        proof {
                            lemma_terms_view_push(u@, c);
                            assert(terms_view(u@) =~= Seq::<TermV>::empty());
                        }
                        u.push(c);
                        assert(terms_view(u@) =~= seq![lhs@]);
                        u
                    } else {
                        copy_prefix(a1, n1)
                    };
                    match self.add_upper_f(*v, TypeTerm::Ladder(ul), fuel) {
                        None => {
                            return None;
                        },
                        Some(false) => {
                            return Some(Err(ConstraintError { addr: copy_addr(&addr), t1: lhs.copy(), t2: rhs.copy() }));
                        },
                        Some(true) => {},
                    }
                    if n2 >= 2 {
                        n1 = i;
                        n2 = n2 - 2;
                    } else {
                        n1 = 0;
                        n2 = 0;
                    }
                },
                _ => {
                    let q = CP2 { addr: copy_addr(&addr), lhs: lhs.copy(), rhs: rhs.copy() };
                    match self.eval_sub_f(q, fuel) {
                        None => {
                            return None;
                        },
                        Some(Err(_)) => {
                            return Some(Err(ConstraintError { addr: copy_addr(&addr), t1: lhs.copy(), t2: rhs.copy() }));
                        },
                        Some(Ok(psi)) => {
                            proof { lemma_terms_view_prepend(halo@, psi); }
                            halo.insert(0, psi);
                            n1 = i;
                            n2 = n2 - 1;
                        },
                    }
                },
            }
        }
        let mut v = copy_prefix(a1, n1);
        let ghost vp = v@;
        let ghost hp = halo@;
        v.append(&mut halo);
        proof { lemma_terms_view_append(vp, hp); }
        Some(Ok(TypeTerm::Ladder(v).strip()))
    }

    /// `seq <= <S T>`: the sequence's representation against `S`, its item against `T`.
    fn sub_seq_spec_f(&mut self, p: &CP2, repr: &Option<Box<TypeTerm>>, item: &TypeTerm, args: &Vec<TypeTerm>, fuel: u64) -> (r: Option<Result<TypeTerm, ConstraintError>>)
        ensures
            spec_sub_seq_spec(old(self)@, p@, opt_view(*repr), item@, terms_view(args@), fuel as nat) == match r {
                Some(x) => Some((final(self)@, res_term_view(x))),
                None => None,
            },
        decreases fuel, 1nat,
    {
        proof {
            lemma_opt_view(*repr);
            lemma_terms_view(args@);
        }
        if args.len() > 1 {
            match repr {
                Some(sr) => {
                    let q = CP2 { addr: copy_addr(&p.addr), lhs: sr.copy(), rhs: args[0].copy() };
                    let rpsi = match self.eval_sub_f(q, fuel) {
                        None => {
                            return None;
                        },
                        Some(Err(e2)) => {
                            return Some(Err(e2));
                        },
                        Some(Ok(rpsi)) => rpsi,
                    };
                    let rpsi2 = match ladder2_exec(rpsi, args[0].get_interface_type()).normalize_core(fuel) {
                        None => {
                            return None;
                        },
                        Some(n) => n,
                    };
                    let q2 = CP2 { addr: addr_push(&p.addr, 1), lhs: item.copy(), rhs: args[1].copy() };
                    let ipsi = match self.eval_sub_f(q2, fuel) {
                        None => {
                            return None;
                        },
                        Some(Err(e3)) => {
                            return Some(Err(e3));
                        },
                        Some(Ok(ipsi)) => ipsi,
                    };
                    let ipsi2 = match ladder2_exec(ipsi, args[1].get_interface_type()).normalize_core(fuel) {
                        None => {
                            return None;
                        },
                        Some(n) => n,
                    };
                    let r: Option<Box<TypeTerm>> = if rpsi2.is_empty() { None } else { Some(Box::new(rpsi2)) };
                    proof { lemma_opt_view(r); }
                    let it = ipsi2.applied(&self.sigma);
                    Some(Ok(TypeTerm::Sequence { seq_repr: r, item: Box::new(it) }))
                },
                None => Some(Err(error_of(p))),
            }
        } else {
            Some(Err(error_of(p)))
        }
    }

    /// Attaches the interface types of the right arguments to the halos `nc .. i`.
    fn fix_halos_f(&self, halo: Vec<TypeTerm>, a2: &Vec<TypeTerm>, nc: usize, i: usize, fuel: u64) -> (r: Option<Vec<TypeTerm>>)
        ensures
            spec_fix_halos(terms_view(halo@), terms_view(a2@), nc as nat, i as nat, self@.sigma, fuel as nat) == match r {
                Some(h) => Some(terms_view(h@)),
                None => None,
            },
        decreases fuel, 1nat,
    {
        let ghost s2 = terms_view(a2@);
        proof { lemma_terms_view(a2@); }
        let ghost target = spec_fix_halos(terms_view(halo@), s2, nc as nat, i as nat, self@.sigma, fuel as nat);
        let mut h = halo;
        proof { lemma_terms_view(h@); }
        let mut k: usize = nc;
        proof { lemma_terms_view(h@); }
        while k < i && k < h.len() && k < a2.len()
            invariant
                s2 == terms_view(a2@),
                s2.len() == a2.len(),
                forall|j: int| 0 <= j < a2.len() ==> #[trigger] s2[j] == term_view(a2@[j]),
                terms_view(h@).len() == h.len(),
                spec_fix_halos(terms_view(h@), s2, k as nat, i as nat, self@.sigma, fuel as nat) == target,
                target == spec_fix_halos(terms_view(halo@), terms_view(a2@), nc as nat, i as nat, self@.sigma, fuel as nat),
            decreases i - k,
        {
            proof { lemma_terms_view(h@); }
            assert(terms_view(h@)[k as int] == h@[k as int]@);
            let n = match ladder2_exec(h[k].copy(), a2[k].get_interface_type()).normalize_core(fuel) {
                None => {
                    return None;
                },
                Some(n) => n,
            };
            let m = n.applied(&self.sigma);
            let ghost hv = terms_view(h@);
            h.set(k, m);
            proof {
                lemma_terms_view(h@);
                assert(terms_view(h@) =~= hv.update(k as int, m@));
            }
            k += 1;
        }
        Some(h)
    }

    /// Two applications, argument by argument.
    fn sub_args_f(&mut self, p: &CP2, a1: &Vec<TypeTerm>, a2: &Vec<TypeTerm>, fuel: u64) -> (r: Option<Result<TypeTerm, ConstraintError>>)
        ensures
            spec_sub_args(old(self)@, p@, terms_view(a1@), terms_view(a2@), 0, Seq::empty(), 0, 0, fuel as nat) == match r {
                Some(x) => Some((final(self)@, res_term_view(x))),
                None => None,
            },
        decreases fuel, 2nat,
    {
        let ghost s1 = terms_view(a1@);
        let ghost s2 = terms_view(a2@);
        proof {
            lemma_terms_view(a1@);
            lemma_terms_view(a2@);
        }
        let ghost target = spec_sub_args(self@, p@, s1, s2, 0, Seq::empty(), 0, 0, fuel as nat);
        let mut halo: Vec<TypeTerm> = Vec::new();
        assert(terms_view(halo@) =~= Seq::<TermV>::empty());
        let mut n_halos: usize = 0;
        let mut nc: usize = 0;
        let mut i: usize = 0;
        while i < a1.len() && i < a2.len()
            invariant
                n_halos <= i,
                s1 == terms_view(a1@),
                s2 == terms_view(a2@),
                s1.len() == a1.len(),
                s2.len() == a2.len(),
                forall|j: int| 0 <= j < a1.len() ==> #[trigger] s1[j] == term_view(a1@[j]),
                forall|j: int| 0 <= j < a2.len() ==> #[trigger] s2[j] == term_view(a2@[j]),
                spec_sub_args(self@, p@, s1, s2, i as nat, terms_view(halo@), n_halos as nat, nc as nat, fuel as nat) == target,
                target == spec_sub_args(old(self)@, p@, terms_view(a1@), terms_view(a2@), 0, Seq::empty(), 0, 0, fuel as nat),
            decreases a1.len() - i,
        {
            let x = a1[i].strip_ref();
            let y = a2[i].strip_ref();
            let q = CP2 { addr: addr_push(&p.addr, i), lhs: x, rhs: y.copy() };
            match self.eval_sub_f(q, fuel) {
                None => {
                    return None;
                },
                Some(Err(e2)) => {
                    return Some(Err(e2));
                },
                Some(Ok(h)) => {
                    if h.is_empty() {
                        let y2 = y.applied(&self.sigma).strip();
                        let yi = y2.get_interface_type();
                        proof { lemma_terms_view_push(halo@, yi); }
                        halo.push(yi);
                    } else {
                        let fixed = if nc < i {
                            match self.fix_halos_f(halo, a2, nc, i, fuel) {
                                None => {
                                    return None;
                                },
                                Some(f) => f,
                            }
                        } else {
                            halo
                        };
                        let mut fixed = fixed;
                        proof { lemma_terms_view_push(fixed@, h); }
                        fixed.push(h);
                        halo = fixed;
                        n_halos = n_halos + 1;
                        if nc < i {
                            nc = i;
                        }
                    }
                },
            }
            i += 1;
        }
        if n_halos > 0 {
            Some(Ok(TypeTerm::Spec(halo)))
        } else {
            Some(Ok(TypeTerm::unit()))
        }
    }

    /// `x <= y` where one side is a variable: the other side becomes its bound.
    fn sub_var_f(&mut self, p: &CP2, x: &TypeTerm, y: &TypeTerm, f: u64) -> (r: Option<Result<TypeTerm, ConstraintError>>)
        requires
            x@ == spec_strip(p.lhs@),
            y@ == spec_strip(p.rhs@),
            x@ is Var || y@ is Var,
        ensures
            spec_eval_sub(old(self)@, p@, (f + 1) as nat) == match r {
                Some(x) => Some((final(self)@, res_term_view(x))),
                None => None,
            },
        decreases f, 1nat,
    {
        proof {
            lemma_view_variant(x);
            lemma_view_variant(y);
        }
        match (x, y) {
            (TypeTerm::Var(v), t) => match self.add_upper_f(*v, t.copy(), f) {
                None => None,
                Some(ok) => if ok {
                    Some(Ok(TypeTerm::unit()))
                } else {
                    Some(Err(ConstraintError { addr: copy_addr(&p.addr), t1: TypeTerm::Var(*v), t2: t.copy() }))
                },
            },
            (t, TypeTerm::Var(v)) => match self.add_lower_f(*v, t.copy(), f) {
                None => None,
                Some(ok) => if ok {
                    Some(Ok(TypeTerm::unit()))
                } else {
                    Some(Err(ConstraintError { addr: copy_addr(&p.addr), t1: TypeTerm::Var(*v), t2: t.copy() }))
                },
            },
            _ => None,
        }
    }

    /// `x <= y` for two structs or two enums.
    fn sub_record_f(&mut self, p: &CP2, x: &TypeTerm, y: &TypeTerm, f: u64) -> (r: Option<Result<TypeTerm, ConstraintError>>)
        requires
            x@ == spec_strip(p.lhs@),
            y@ == spec_strip(p.rhs@),
            (x@ is Struct && y@ is Struct) || (x@ is Enum && y@ is Enum),
        ensures
            spec_eval_sub(old(self)@, p@, (f + 1) as nat) == match r {
                Some(x) => Some((final(self)@, res_term_view(x))),
                None => None,
            },
        decreases f, 2nat,
    {
        proof {
            lemma_view_variant(x);
            lemma_view_variant(y);
        }
        match (x, y) {
            (TypeTerm::Struct { struct_repr: lr, members: lm }, TypeTerm::Struct { struct_repr: rr, members: rm }) => {
                proof {
                    lemma_members_view(lm@);
                    lemma_members_view(rm@);
                }
                match self.sub_repr_f(p, lr, rr, f) {
                    None => None,
                    Some(Err(e2)) => Some(Err(e2)),
                    Some(Ok(())) => if lm.len() == rm.len() {
                        match self.sub_members_f(&p.addr, lm, rm, f) {
                            None => None,
                            Some(Err(e3)) => Some(Err(e3)),
                            Some(Ok(h)) => {
                                proof { lemma_opt_view(None); }
                                Some(Ok(TypeTerm::Struct { struct_repr: None, members: h }))
                            },
                        }
                    } else {
                        Some(Err(error_of(p)))
                    },
                }
            },
            (TypeTerm::Enum { enum_repr: lr, variants: lm }, TypeTerm::Enum { enum_repr: rr, variants: rm }) => {
                proof {
                    lemma_variants_view(lm@);
                    lemma_variants_view(rm@);
                }
                match self.sub_repr_f(p, lr, rr, f) {
                    None => None,
                    Some(Err(e2)) => Some(Err(e2)),
                    Some(Ok(())) => if lm.len() == rm.len() {
                        match self.sub_variants_f(&p.addr, lm, rm, f) {
                            None => None,
                            Some(Err(e3)) => Some(Err(e3)),
                            Some(Ok(h)) => {
                                proof { lemma_opt_view(None); }
                                Some(Ok(TypeTerm::Enum { enum_repr: None, variants: h }))
                            },
                        }
                    } else {
                        Some(Err(error_of(p)))
                    },
                }
            },
            _ => None,
        }
    }

    /// `x <= y` where `x` is a ladder and `y` is not: the bottom rung of `x` against `y`.
    fn sub_ladder_top_f(&mut self, p: &CP2, x: &TypeTerm, y: &TypeTerm, f: u64) -> (r: Option<Result<TypeTerm, ConstraintError>>)
        requires
            x@ == spec_strip(p.lhs@),
            y@ == spec_strip(p.rhs@),
            x@ is Ladder,
            !(y@ is Ladder),
            !(y@ is Var),
        ensures
            spec_eval_sub(old(self)@, p@, (f + 1) as nat) == match r {
                Some(x) => Some((final(self)@, res_term_view(x))),
                None => None,
            },
        decreases f, 1nat,
    {
        proof {
            lemma_view_variant(x);
            lemma_view_variant(y);
        }
        match x {
            TypeTerm::Ladder(a1) => {
                proof { lemma_terms_view(a1@); }
                if a1.len() > 0 {
                    let n = a1.len() - 1;
                    let rest = copy_prefix(a1, n);
                    let q = CP2 { addr: addr_push(&p.addr, n), lhs: a1[n].copy(), rhs: y.copy() };
                    match self.eval_sub_f(q, f) {
                        None => None,
                        Some(Err(_)) => Some(Err(ConstraintError { addr: copy_addr(&p.addr), t1: TypeTerm::Ladder(rest), t2: y.copy() })),
                        Some(Ok(halo)) => if n == 0 {
                            Some(Ok(halo))
                        } else {
                            let mut rv = rest;
                            proof { lemma_terms_view_push(rv@, halo); }
                            rv.push(halo);
                            match TypeTerm::Ladder(rv).normalize_core(f) {
                                Some(nh) => Some(Ok(nh)),
                                None => None,
                            }
                        },
                    }
                } else if y.same(&TypeTerm::unit()) {
                    Some(Ok(TypeTerm::unit()))
                } else {
                    Some(Err(ConstraintError { addr: copy_addr(&p.addr), t1: TypeTerm::unit(), t2: y.copy() }))
                }
            },
            _ => None,
        }
    }

    /// The representations of two compound terms as a new trait check.
    fn trait_repr(&mut self, addr: &Vec<usize>, lsr: &Option<Box<TypeTerm>>, rsr: &Option<Box<TypeTerm>>) -> (r: Result<(), ConstraintError>)
        ensures
            spec_trait_repr(old(self)@, addr@, opt_view(*lsr), opt_view(*rsr)) == (final(self)@, res_unit_view(r)),
    {
        proof {
            lemma_opt_view(*lsr);
            lemma_opt_view(*rsr);
        }
        match rsr {
            Some(r) => match lsr {
                Some(l) => {
                    let x = CP2 { addr: addr_push(addr, 0), lhs: l.copy(), rhs: r.copy() };
                    proof { lemma_cp2s_push(self.trait_pairs@, x); }
                    self.trait_pairs.push(x);
                    Ok(())
                },
                None => Err(ConstraintError { addr: addr_push(addr, 0), t1: TypeTerm::unit(), t2: r.copy() }),
            },
            None => Ok(()),
        }
    }

    /// For each member of `rm`, the member of `lm` with the same name must have its trait.
    fn trait_members(&mut self, addr: &Vec<usize>, lm: &Vec<StructMember>, rm: &Vec<StructMember>) -> (r: Result<(), ConstraintError>)
        ensures
            spec_trait_fields(old(self)@, addr@, members_view(lm@), members_view(rm@), 0) == (final(self)@, res_unit_view(r)),
    {
        let ghost slm = members_view(lm@);
        let ghost srm = members_view(rm@);
        proof {
            lemma_members_view(lm@);
            lemma_members_view(rm@);
        }
        let ghost target = spec_trait_fields(self@, addr@, slm, srm, 0);
        let mut i: usize = 0;
        while i < rm.len()
            invariant
                i <= rm.len(),
                slm == members_view(lm@),
                srm == members_view(rm@),
                slm.len() == lm.len(),
                srm.len() == rm.len(),
                forall|j: int| 0 <= j < lm.len() ==> #[trigger] slm[j] == lm@[j]@,
                forall|j: int| 0 <= j < rm.len() ==> #[trigger] srm[j] == rm@[j]@,
                spec_trait_fields(self@, addr@, slm, srm, i as nat) == target,
                target == spec_trait_fields(old(self)@, addr@, members_view(lm@), members_view(rm@), 0),
            decreases rm.len() - i,
        {
            assert(srm[i as int] == rm@[i as int]@);
            proof { lemma_find_field(slm, srm[i as int].symbol); }
            match find_member(lm, &rm[i].symbol) {
                Some(k) => {
                    assert(slm[k as int] == lm@[k as int]@);
                    let x = CP2 { addr: addr_push(addr, 0), lhs: lm[k].ty.copy(), rhs: rm[i].ty.copy() };
                    proof { lemma_cp2s_push(self.trait_pairs@, x); }
                    self.trait_pairs.push(x);
                },
                None => {
                    return Err(ConstraintError { addr: addr_push(addr, i), t1: TypeTerm::unit(), t2: rm[i].ty.copy() });
                },
            }
            i += 1;
        }
        Ok(())
    }

    /// For each variant of `rm`, the variant of `lm` with the same name must have its trait.
    fn trait_variants(&mut self, addr: &Vec<usize>, lm: &Vec<EnumVariant>, rm: &Vec<EnumVariant>) -> (r: Result<(), ConstraintError>)
        ensures
            spec_trait_fields(old(self)@, addr@, variants_view(lm@), variants_view(rm@), 0) == (final(self)@, res_unit_view(r)),
    {
        let ghost slm = variants_view(lm@);
        let ghost srm = variants_view(rm@);
        proof {
            lemma_variants_view(lm@);
            lemma_variants_view(rm@);
        }
        let ghost target = spec_trait_fields(self@, addr@, slm, srm, 0);
        let mut i: usize = 0;
        while i < rm.len()
            invariant
                i <= rm.len(),
                slm == variants_view(lm@),
                srm == variants_view(rm@),
                slm.len() == lm.len(),
                srm.len() == rm.len(),
                forall|j: int| 0 <= j < lm.len() ==> #[trigger] slm[j] == lm@[j]@,
                forall|j: int| 0 <= j < rm.len() ==> #[trigger] srm[j] == rm@[j]@,
                spec_trait_fields(self@, addr@, slm, srm, i as nat) == target,
                target == spec_trait_fields(old(self)@, addr@, variants_view(lm@), variants_view(rm@), 0),
            decreases rm.len() - i,
        {
            assert(srm[i as int] == rm@[i as int]@);
            proof { lemma_find_field(slm, srm[i as int].symbol); }
            match find_variant(lm, &rm[i].symbol) {
                Some(k) => {
                    assert(slm[k as int] == lm@[k as int]@);
                    let x = CP2 { addr: addr_push(addr, 0), lhs: lm[k].ty.copy(), rhs: rm[i].ty.copy() };
                    proof { lemma_cp2s_push(self.trait_pairs@, x); }
                    self.trait_pairs.push(x);
                },
                None => {
                    return Err(ConstraintError { addr: addr_push(addr, i), t1: TypeTerm::unit(), t2: rm[i].ty.copy() });
                },
            }
            i += 1;
        }
        Ok(())
    }

    /// Some rung of the ladder `r1` has the trait `tau`.
    fn trait_rungs_f(&mut self, p: &CP2, r1: &Vec<TypeTerm>, tau: &TypeTerm, fuel: u64) -> (r: Option<Result<(), ConstraintError>>)
        ensures
            spec_trait_rungs(old(self)@, p@, terms_view(r1@), tau@, 0, fuel as nat) == match r {
                Some(x) => Some((final(self)@, res_unit_view(x))),
                None => None,
            },
        decreases fuel, 1nat,
    {
        let ghost s1 = terms_view(r1@);
        proof { lemma_terms_view(r1@); }
        let ghost target = spec_trait_rungs(self@, p@, s1, tau@, 0, fuel as nat);
        let mut i: usize = 0;
        while i < r1.len()
            invariant
                i <= r1.len(),
                s1 == terms_view(r1@),
                s1.len() == r1.len(),
                forall|j: int| 0 <= j < r1.len() ==> #[trigger] s1[j] == term_view(r1@[j]),
                spec_trait_rungs(self@, p@, s1, tau@, i as nat, fuel as nat) == target,
                target == spec_trait_rungs(old(self)@, p@, terms_view(r1@), tau@, 0, fuel as nat),
            decreases r1.len() - i,
        {
            let q = CP2 { addr: addr_push(&p.addr, i), lhs: r1[i].copy(), rhs: tau.copy() };
            match self.eval_trait_f(q, fuel) {
                None => {
                    return None;
                },
                Some(Ok(())) => {
                    return Some(Ok(()));
                },
                Some(Err(_)) => {},
            }
            i += 1;
        }
        Some(Err(error_of(p)))
    }

    /// Trait check of two compound terms (sequences, structs, enums).
    fn trait_compound_f(&mut self, p: &CP2, x: &TypeTerm, y: &TypeTerm, f: u64) -> (r: Option<Result<(), ConstraintError>>)
        requires
            x@ == spec_strip(p.lhs@),
            y@ == spec_strip(p.rhs@),
            (x@ is Sequence && y@ is Sequence) || (x@ is Struct && y@ is Struct) || (x@ is Enum && y@ is Enum),
        ensures
            spec_eval_trait(old(self)@, p@, (f + 1) as nat) == match r {
                Some(x) => Some((final(self)@, res_unit_view(x))),
                None => None,
            },
        decreases f, 1nat,
    {
        proof {
            lemma_view_variant(x);
            lemma_view_variant(y);
        }
        match (x, y) {
            (TypeTerm::Sequence { seq_repr: lsr, item: lit }, TypeTerm::Sequence { seq_repr: rsr, item: rit }) => {
                match self.trait_repr(&p.addr, lsr, rsr) {
                    Err(e2) => Some(Err(e2)),
                    Ok(()) => {
                        let q = CP2 { addr: addr_push(&p.addr, 1), lhs: lit.copy(), rhs: rit.copy() };
                        proof { lemma_cp2s_push(self.trait_pairs@, q); }
                        self.trait_pairs.push(q);
                        Some(Ok(()))
                    },
                }
            },
            (TypeTerm::Struct { struct_repr: lsr, members: lm }, TypeTerm::Struct { struct_repr: rsr, members: rm }) => {
                match self.trait_repr(&p.addr, lsr, rsr) {
                    Err(e2) => Some(Err(e2)),
                    Ok(()) => Some(self.trait_members(&p.addr, lm, rm)),
                }
            },
            (TypeTerm::Enum { enum_repr: lsr, variants: lm }, TypeTerm::Enum { enum_repr: rsr, variants: rm }) => {
                match self.trait_repr(&p.addr, lsr, rsr) {
                    Err(e2) => Some(Err(e2)),
                    Ok(()) => Some(self.trait_variants(&p.addr, lm, rm)),
                }
            },
            _ => None,
        }
    }

    /// Checks that `p.lhs` has the trait `p.rhs`.
    fn eval_trait_f(&mut self, p: CP2, fuel: u64) -> (r: Option<Result<(), ConstraintError>>)
        ensures
            spec_eval_trait(old(self)@, p@, fuel as nat) == match r {
                Some(x) => Some((final(self)@, res_unit_view(x))),
                None => None,
            },
        decreases fuel, 0nat,
    {
        if fuel == 0 {
            return None;
        }
        let f = fuel - 1;
        let x = p.lhs.strip_ref();
        let y = p.rhs.strip_ref();
        proof {
            lemma_view_variant(&x);
            lemma_view_variant(&y);
        }
        match (&x, &y) {
            (TypeTerm::Ladder(r1), _) => {
                assert(spec_eval_trait(self@, p@, fuel as nat) == spec_trait_rungs(self@, p@, terms_view(r1@), y@, 0, f as nat));
                self.trait_rungs_f(&p, r1, &y, f)
            },
            (TypeTerm::Var(v), _) => self.bind_f(&p.addr, *v, y.copy(), f),
            (_, TypeTerm::Var(v)) => self.bind_f(&p.addr, *v, x.copy(), f),
            (TypeTerm::Id(a), TypeTerm::Id(b)) => Some(atom_result(*a == *b, &p)),
            (TypeTerm::Num(a), TypeTerm::Num(b)) => Some(atom_result(*a == *b, &p)),
            (TypeTerm::Char(a), TypeTerm::Char(b)) => Some(atom_result(*a == *b, &p)),
            (TypeTerm::Spec(a1), TypeTerm::Spec(a2)) => {
                proof {
                    lemma_terms_view(a1@);
                    lemma_terms_view(a2@);
                }
                if a1.len() == a2.len() {
                    push_rev_pairs(&mut self.trait_pairs, &p.addr, a1, a2);
                    Some(Ok(()))
                } else {
                    Some(Err(error_of(&p)))
                }
            },
            (TypeTerm::Sequence { .. }, TypeTerm::Sequence { .. }) => self.trait_compound_f(&p, &x, &y, f),
            (TypeTerm::Struct { .. }, TypeTerm::Struct { .. }) => self.trait_compound_f(&p, &x, &y, f),
            (TypeTerm::Enum { .. }, TypeTerm::Enum { .. }) => self.trait_compound_f(&p, &x, &y, f),
            _ => Some(Err(error_of(&p))),
        }
    }

    /// Checks `p.lhs <= p.rhs`; on success the result is the halo: the part of the left
    /// ladder above the right one.
    fn eval_sub_f(&mut self, p: CP2, fuel: u64) -> (r: Option<Result<TypeTerm, ConstraintError>>)
        ensures
            spec_eval_sub(old(self)@, p@, fuel as nat) == match r {
                Some(x) => Some((final(self)@, res_term_view(x))),
                None => None,
            },
        decreases fuel, 0nat,
    {
        if fuel == 0 {
            return None;
        }
        let f = fuel - 1;
        let x = p.lhs.strip_ref();
        let y = p.rhs.strip_ref();
        proof {
            lemma_view_variant(&x);
            lemma_view_variant(&y);
        }
        match (&x, &y) {
            (TypeTerm::Var(_), _) => self.sub_var_f(&p, &x, &y, f),
            (_, TypeTerm::Var(_)) => self.sub_var_f(&p, &x, &y, f),
            (TypeTerm::Id(a), TypeTerm::Id(b)) => Some(if *a == *b { Ok(TypeTerm::unit()) } else { Err(error_of(&p)) }),
            (TypeTerm::Num(a), TypeTerm::Num(b)) => Some(if *a == *b { Ok(TypeTerm::unit()) } else { Err(error_of(&p)) }),
            (TypeTerm::Char(a), TypeTerm::Char(b)) => Some(if *a == *b { Ok(TypeTerm::unit()) } else { Err(error_of(&p)) }),
            (TypeTerm::Sequence { seq_repr: lr, item: li }, TypeTerm::Sequence { seq_repr: rr, item: ri }) => {
                assert(spec_eval_sub(self@, p@, fuel as nat) == spec_sub_seq(self@, p@, opt_view(*lr), Box::new(li@), opt_view(*rr), Box::new(ri@), f as nat));
                self.sub_seq_f(&p, lr, li, rr, ri, f)
            },
            (TypeTerm::Struct { .. }, TypeTerm::Struct { .. }) => self.sub_record_f(&p, &x, &y, f),
            (TypeTerm::Enum { .. }, TypeTerm::Enum { .. }) => self.sub_record_f(&p, &x, &y, f),
            (TypeTerm::Ladder(a1), TypeTerm::Ladder(a2)) => {
                proof {
                    lemma_terms_view(a1@);
                    lemma_terms_view(a2@);
                }
                assert(spec_eval_sub(self@, p@, fuel as nat) == spec_sub_ladder(self@, p@, terms_view(a1@), terms_view(a2@), a1.len() as nat, a2.len() as nat, Seq::empty(), f as nat));
                self.sub_ladder_f(&p, a1, a2, f)
            },
            (TypeTerm::Sequence { seq_repr, item }, TypeTerm::Spec(args)) => {
                assert(spec_eval_sub(self@, p@, fuel as nat) == spec_sub_seq_spec(self@, p@, opt_view(*seq_repr), item@, terms_view(args@), f as nat));
                self.sub_seq_spec_f(&p, seq_repr, item, args, f)
            },
            (_, TypeTerm::Ladder(_)) => Some(Err(ConstraintError { addr: copy_addr(&p.addr), t1: x.copy(), t2: y.copy() })),
            (TypeTerm::Ladder(_), _) => self.sub_ladder_top_f(&p, &x, &y, f),
            (TypeTerm::Spec(a1), TypeTerm::Spec(a2)) => {
                proof {
                    lemma_terms_view(a1@);
                    lemma_terms_view(a2@);
                }
                if a1.len() == a2.len() {
                    assert(spec_eval_sub(self@, p@, fuel as nat) == spec_sub_args(self@, p@, terms_view(a1@), terms_view(a2@), 0, Seq::empty(), 0, 0, f as nat));
                    self.sub_args_f(&p, a1, a2, f)
                } else {
                    Some(Err(error_of(&p)))
                }
            },
            _ => Some(Err(error_of(&p))),
        }
    }
}

/// Adds every term of `src`, stripped, to `dst` (overriding what `dst` maps the same
/// variable to).
fn merge_stripped(dst: &mut HashMapSubst, src: &HashMapSubst)
    ensures
        subst_view(*final(dst)) == subst_view(*old(dst)).union_prefer_right(spec_strip_map(subst_view(*src))),
{
    let ghost d0 = *dst;
    let ghost done: Set<u64> = Set::empty();
    let ghost v = vstd::std_specs::hash::spec_hash_map_iter(src).remaining();
    for kv in it: src.iter()
        invariant
            v == vstd::std_specs::hash::spec_hash_map_iter(src).remaining(),
            it.seq() == v,
            d0 == *old(dst),
            forall|x: u64| #[trigger] done.contains(x) ==> src@.contains_key(x) && dst@.contains_key(x)
                && dst@[x]@ == spec_strip(src@[x]@),
            forall|x: u64| !done.contains(x) && d0@.contains_key(x) ==> #[trigger] dst@.contains_key(x) && dst@[x] == d0@[x],
            forall|x: u64| #[trigger] dst@.contains_key(x) ==> d0@.contains_key(x) || done.contains(x),
            forall|j: int| 0 <= j < it.index() ==> #[trigger] done.contains(*v[j].0),
    {
        let (k, t) = kv;
        assert(src@.contains_key(*k) && src@[*k] == *t);
        dst.insert(*k, t.strip_ref());
        proof { done = done.insert(*k); }
    }
    proof {
        assert forall|x: u64| src@.contains_key(x) implies #[trigger] done.contains(x) by {
            assert(v.contains((&x, &src@[x])));
            let j = choose|j: int| 0 <= j < v.len() && v[j] == (&x, &src@[x]);
            assert(done.contains(*v[j].0));
        }
        let target = subst_view(d0).union_prefer_right(spec_strip_map(subst_view(*src)));
        assert forall|x: u64| #[trigger] subst_view(*dst).contains_key(x) <==> target.contains_key(x) by {
            if dst@.contains_key(x) && !done.contains(x) {
                assert(d0@.contains_key(x));
            }
        }
        assert forall|x: u64| #[trigger] subst_view(*dst).contains_key(x) implies subst_view(*dst)[x] == target[x] by {
            if done.contains(x) {
                assert(src@.contains_key(x));
            } else {
                assert(d0@.contains_key(x));
            }
        }
        assert(subst_view(*dst) =~= target);
    }
}

impl ConstraintSystem {
    /// Solves the equations, last one first, until none is left.
    fn eq_loop_f(&mut self, fuel: u64) -> (r: Option<Result<(), ConstraintError>>)
        ensures
            spec_eq_loop(old(self)@, fuel as nat) == match r {
                Some(x) => Some((final(self)@, res_unit_view(x))),
                None => None,
            },
        decreases fuel, 0nat,
    {
        let ghost target = spec_eq_loop(self@, fuel as nat);
        let mut k: u64 = fuel;
        loop
            invariant
                k <= fuel,
                spec_eq_loop(self@, k as nat) == target,
                target == spec_eq_loop(old(self)@, fuel as nat),
            decreases k,
        {
            if k == 0 {
                return None;
            }
            let f = k - 1;
            let ghost before = self.equal_pairs@;
            match self.equal_pairs.pop() {
                None => {
                    return Some(Ok(()));
                },
                Some(p) => {
                    proof {
                        lemma_cp2s_prefix(before, before.len() - 1);
                        assert(before.subrange(0, before.len() - 1) =~= self.equal_pairs@);
                        assert(cp2s_view(before)[before.len() - 1] == p@);
                    }
                    let q = CP2 { addr: p.addr, lhs: p.lhs.applied(&self.sigma), rhs: p.rhs.applied(&self.sigma) };
                    match self.eval_eq_f(q, f) {
                        None => {
                            return None;
                        },
                        Some(Err(e)) => {
                            return Some(Err(e));
                        },
                        Some(Ok(())) => {},
                    }
                },
            }
            k = f;
        }
    }

    /// Checks the trait constraints, last one first, until none is left.
    fn trait_loop_f(&mut self, fuel: u64) -> (r: Option<Result<(), ConstraintError>>)
        ensures
            spec_trait_loop(old(self)@, fuel as nat) == match r {
                Some(x) => Some((final(self)@, res_unit_view(x))),
                None => None,
            },
        decreases fuel, 0nat,
    {
        let ghost target = spec_trait_loop(self@, fuel as nat);
        let mut k: u64 = fuel;
        loop
            invariant
                k <= fuel,
                spec_trait_loop(self@, k as nat) == target,
                target == spec_trait_loop(old(self)@, fuel as nat),
            decreases k,
        {
            if k == 0 {
                return None;
            }
            let f = k - 1;
            let ghost before = self.trait_pairs@;
            match self.trait_pairs.pop() {
                None => {
                    return Some(Ok(()));
                },
                Some(p) => {
                    proof {
                        lemma_cp2s_prefix(before, before.len() - 1);
                        assert(before.subrange(0, before.len() - 1) =~= self.trait_pairs@);
                        assert(cp2s_view(before)[before.len() - 1] == p@);
                    }
                    let q = CP2 { addr: p.addr, lhs: p.lhs.applied(&self.sigma), rhs: p.rhs.applied(&self.sigma) };
                    match self.eval_trait_f(q, f) {
                        None => {
                            return None;
                        },
                        Some(Err(e)) => {
                            return Some(Err(e));
                        },
                        Some(Ok(())) => {},
                    }
                },
            }
            k = f;
        }
    }

    /// Checks all subtype constraints in order, each with the current substitution
    /// applied; the result holds the stripped halos.
    fn sub_loop_f(&mut self, fuel: u64) -> (r: Option<Result<Vec<TypeTerm>, ConstraintError>>)
        ensures
            spec_sub_loop(old(self)@, old(self)@.subs, 0, Seq::empty(), fuel as nat) == match r {
                Some(Ok(h)) => Some((final(self)@, Ok(terms_view(h@)))),
                Some(Err(e)) => Some((final(self)@, Err(e@))),
                None => None,
            },
        decreases fuel, 1nat,
    {
        let subs = copy_cp2s(&self.subtype_pairs);
        let ghost ss = cp2s_view(subs@);
        let ghost target = spec_sub_loop(self@, ss, 0, Seq::empty(), fuel as nat);
        let mut halos: Vec<TypeTerm> = Vec::new();
        assert(terms_view(halos@) =~= Seq::<TermV>::empty());
        let mut i: usize = 0;
        while i < subs.len()
            invariant
                i <= subs.len(),
                ss == cp2s_view(subs@),
                ss == old(self)@.subs,
                spec_sub_loop(self@, ss, i as nat, terms_view(halos@), fuel as nat) == target,
                target == spec_sub_loop(old(self)@, old(self)@.subs, 0, Seq::empty(), fuel as nat),
            decreases subs.len() - i,
        {
            assert(ss[i as int] == subs@[i as int]@);
            let p = &subs[i];
            let q = CP2 { addr: copy_addr(&p.addr), lhs: p.lhs.applied(&self.sigma), rhs: p.rhs.applied(&self.sigma) };
            match self.eval_sub_f(q, fuel) {
                None => {
                    return None;
                },
                Some(Err(e)) => {
                    return Some(Err(e));
                },
                Some(Ok(h)) => {
                    let hs = h.strip();
                    proof { lemma_terms_view_push(halos@, hs); }
                    halos.push(hs);
                },
            }
            i += 1;
        }
        Some(Ok(halos))
    }

    /// Solves the system within a step budget: equations, then subtypes (whose variable
    /// bounds join the substitution), then the halos of the subtypes, then traits.
    #[verifier::rlimit(100)]
    #[verifier::spinoff_prover]
    pub fn solve_f(self, fuel: u64) -> (r: Option<Result<(Vec<TypeTerm>, HashMapSubst), ConstraintError>>)
        ensures
            spec_solve(self@, fuel as nat) == match r {
                Some(Ok((h, s))) => Some(Ok((terms_view(h@), subst_view(s)))),
                Some(Err(e)) => Some(Err(e@)),
                None => None,
            },
        decreases fuel, 0nat,
    {
        if fuel == 0 {
            return None;
        }
        let f = fuel - 1;
        let mut cs = self;
        match cs.eq_loop_f(f) {
            None => {
                return None;
            },
            Some(Err(e)) => {
                return Some(Err(e));
            },
            Some(Ok(())) => {},
        }
        match cs.sub_loop_f(f) {
            None => {
                return None;
            },
            Some(Err(e)) => {
                return Some(Err(e));
            },
            Some(Ok(_)) => {},
        }
        let mut s = copy_subst(&cs.sigma);
        merge_stripped(&mut s, &cs.upper_bounds);
        merge_stripped(&mut s, &cs.lower_bounds);
        match saturate_f(&s, f) {
            None => {
                return None;
            },
            Some(s2) => {
                cs.sigma = s2;
            },
        }
        let halos = match cs.sub_loop_f(f) {
            None => {
                return None;
            },
            Some(Err(e)) => {
                return Some(Err(e));
            },
            Some(Ok(h)) => h,
        };
        match cs.trait_loop_f(f) {
            None => None,
            Some(Err(e)) => Some(Err(e)),
            Some(Ok(())) => Some(Ok((halos, cs.sigma))),
        }
    }
}

/// A copy of a list of constraints.
fn copy_cp2s(v: &Vec<CP2>) -> (r: Vec<CP2>)
    ensures
        cp2s_view(r@) == cp2s_view(v@),
{
    let mut r: Vec<CP2> = Vec::new();
    let mut i: usize = 0;
    while i < v.len()
        invariant
            i <= v.len(),
            cp2s_view(r@) == cp2s_view(v@.subrange(0, i as int)),
        decreases v.len() - i,
    {
        let x = v[i].copy();
        proof {
            lemma_cp2s_push(r@, x);
            assert(v@.subrange(0, i + 1) =~= v@.subrange(0, i as int).push(v@[i as int]));
            lemma_cp2s_push(v@.subrange(0, i as int), v@[i as int]);
        }
        r.push(x);
        i += 1;
    }
    assert(v@.subrange(0, v.len() as int) =~= v@);
    r
}

/// Unification within a step budget: the most general substitution that makes `t1` and
/// `t2` equal, or the equation that failed.
pub fn unify_f(t1: &TypeTerm, t2: &TypeTerm, fuel: u64) -> (r: Option<Result<HashMapSubst, ConstraintError>>)
    ensures
        spec_unify(t1@, t2@, fuel as nat) == match r {
            Some(Ok(s)) => Some(Ok(subst_view(s))),
            Some(Err(e)) => Some(Err(e@)),
            None => None,
        },
    decreases fuel, 1nat,
{
    let mut eqs: Vec<CP2> = Vec::new();
    let p = CP2::new(t1.copy(), t2.copy());
    proof { lemma_cp2s_push(eqs@, p); }
    eqs.push(p);
    assert(cp2s_view(eqs@) =~= seq![cp2(Seq::empty(), t1@, t2@)]);
    let cs = ConstraintSystem::new_eq(eqs);
    match cs.solve_f(fuel) {
        None => None,
        Some(Err(e)) => Some(Err(e)),
        Some(Ok((_, s))) => Some(Ok(s)),
    }
}

/// The first halo, or the unit type where there is none.
fn first_halo(halos: Vec<TypeTerm>) -> (r: TypeTerm)
    ensures
        r@ == if terms_view(halos@).len() > 0 { terms_view(halos@)[0] } else { spec_unit() },
{
    proof { lemma_terms_view(halos@); }
    if halos.len() > 0 {
        halos[0].copy()
    } else {
        TypeTerm::unit()
    }
}

/// Subtype unification within a step budget: the halo of `t1 <= t2` and the
/// substitution, or the constraint that failed.
pub fn subtype_unify_f(t1: &TypeTerm, t2: &TypeTerm, fuel: u64) -> (r: Option<Result<(TypeTerm, HashMapSubst), ConstraintError>>)
    ensures
        spec_subtype_unify(t1@, t2@, fuel as nat) == match r {
            Some(Ok((t, s))) => Some(Ok((t@, subst_view(s)))),
            Some(Err(e)) => Some(Err(e@)),
            None => None,
        },
    decreases fuel, 1nat,
{
    let mut subs: Vec<CP2> = Vec::new();
    let p = CP2::new(t1.copy(), t2.copy());
    proof { lemma_cp2s_push(subs@, p); }
    subs.push(p);
    assert(cp2s_view(subs@) =~= seq![cp2(Seq::empty(), t1@, t2@)]);
    let cs = ConstraintSystem::new_sub(subs);
    match cs.solve_f(fuel) {
        None => None,
        Some(Err(e)) => Some(Err(e)),
        Some(Ok((h, s))) => Some(Ok((first_halo(h), s))),
    }
}

/// Parallel unification within a step budget.
pub fn parallel_unify_f(t1: &TypeTerm, t2: &TypeTerm, fuel: u64) -> (r: Option<Result<(TypeTerm, HashMapSubst), ConstraintError>>)
    ensures
        spec_parallel_unify(t1@, t2@, fuel as nat) == match r {
            Some(Ok((t, s))) => Some(Ok((t@, subst_view(s)))),
            Some(Err(e)) => Some(Err(e@)),
            None => None,
        },
    decreases fuel, 1nat,
{
    let mut pars: Vec<CP2> = Vec::new();
    let p = CP2::new(t1.copy(), t2.copy());
    proof { lemma_cp2s_push(pars@, p); }
    pars.push(p);
    assert(cp2s_view(pars@) =~= seq![cp2(Seq::empty(), t1@, t2@)]);
    let cs = ConstraintSystem::new_parallel(pars);
    match cs.solve_f(fuel) {
        None => None,
        Some(Err(e)) => Some(Err(e)),
        Some(Ok((h, s))) => Some(Ok((first_halo(h), s))),
    }
}

impl ConstraintSystem {
    /// Solves the system: the halos of the subtype constraints and the substitution,
    /// or the first constraint that failed.
    pub fn solve(self) -> (r: Result<(Vec<TypeTerm>, HashMapSubst), ConstraintError>)
        requires
            spec_solve(self@, STEP_BUDGET as nat) is Some,
        ensures
            spec_solve(self@, STEP_BUDGET as nat) == Some(match r {
                Ok((h, s)) => Ok((terms_view(h@), subst_view(s))),
                Err(e) => Err(e@),
            }),
    {
        match self.solve_f(STEP_BUDGET) {
            Some(r) => r,
            None => Err(ConstraintError { addr: Vec::new(), t1: TypeTerm::unit(), t2: TypeTerm::unit() }),
        }
    }

    /// Evaluates one equation against the system.
    pub fn eval_equation(&mut self, unification_pair: CP2) -> (r: Result<(), ConstraintError>)
        requires
            spec_eval_eq(old(self)@, unification_pair@, STEP_BUDGET as nat) is Some,
        ensures
            spec_eval_eq(old(self)@, unification_pair@, STEP_BUDGET as nat) == Some((final(self)@, res_unit_view(r))),
    {
        match self.eval_eq_f(unification_pair, STEP_BUDGET) {
            Some(r) => r,
            None => Ok(()),
        }
    }

    /// Evaluates one subtype constraint against the system; on success the result is
    /// the halo of the left side above the right side.
    pub fn eval_subtype(&mut self, unification_pair: CP2) -> (r: Result<TypeTerm, ConstraintError>)
        requires
            spec_eval_sub(old(self)@, unification_pair@, STEP_BUDGET as nat) is Some,
        ensures
            spec_eval_sub(old(self)@, unification_pair@, STEP_BUDGET as nat) == Some((final(self)@, res_term_view(r))),
    {
        match self.eval_sub_f(unification_pair, STEP_BUDGET) {
            Some(r) => r,
            None => Ok(TypeTerm::unit()),
        }
    }

    /// Evaluates one trait constraint against the system.
    pub fn eval_trait(&mut self, unification_pair: CP2) -> (r: Result<(), ConstraintError>)
        requires
            spec_eval_trait(old(self)@, unification_pair@, STEP_BUDGET as nat) is Some,
        ensures
            spec_eval_trait(old(self)@, unification_pair@, STEP_BUDGET as nat) == Some((final(self)@, res_unit_view(r))),
    {
        match self.eval_trait_f(unification_pair, STEP_BUDGET) {
            Some(r) => r,
            None => Ok(()),
        }
    }

    /// Adds an upper bound to variable `v`; fails where it contradicts the bound it has.
    pub fn add_upper_subtype_bound(&mut self, v: u64, new_upper_bound: TypeTerm) -> (r: Result<(), ()>)
        requires
            spec_add_upper(old(self)@, v, new_upper_bound@, STEP_BUDGET as nat) is Some,
        ensures
            spec_add_upper(old(self)@, v, new_upper_bound@, STEP_BUDGET as nat) == Some((final(self)@, r is Ok)),
    {
        match self.add_upper_f(v, new_upper_bound, STEP_BUDGET) {
            Some(true) => Ok(()),
            _ => Err(()),
        }
    }

    /// Adds a lower bound to variable `v`; fails where it contradicts the bound it has.
    pub fn add_lower_subtype_bound(&mut self, v: u64, new_lower_bound: TypeTerm) -> (r: Result<(), ()>)
        requires
            spec_add_lower(old(self)@, v, new_lower_bound@, STEP_BUDGET as nat) is Some,
        ensures
            spec_add_lower(old(self)@, v, new_lower_bound@, STEP_BUDGET as nat) == Some((final(self)@, r is Ok)),
    {
        match self.add_lower_f(v, new_lower_bound, STEP_BUDGET) {
            Some(true) => Ok(()),
            _ => Err(()),
        }
    }

    /// Updates every term of the substitution: the substitution applied to it, then
    /// normalized.
    pub fn reapply_subst(&mut self)
        requires
            spec_saturate(old(self)@.sigma, STEP_BUDGET as nat) is Some,
        ensures
            final(self)@ == with_sigma(old(self)@, spec_saturate(old(self)@.sigma, STEP_BUDGET as nat).unwrap()),
    {
        match saturate_f(&self.sigma, STEP_BUDGET) {
            Some(s) => {
                self.sigma = s;
            },
            None => {},
        }
    }
}

/// The most general substitution that makes `t1` and `t2` equal, or the equation that
/// failed.
pub fn unify(t1: &TypeTerm, t2: &TypeTerm) -> (r: Result<HashMapSubst, ConstraintError>)
    requires
        spec_unify(t1@, t2@, STEP_BUDGET as nat) is Some,
    ensures
        spec_unify(t1@, t2@, STEP_BUDGET as nat) == Some(match r {
            Ok(s) => Ok(subst_view(s)),
            Err(e) => Err(e@),
        }),
{
    match unify_f(t1, t2, STEP_BUDGET) {
        Some(r) => r,
        None => Ok(HashMap::new()),
    }
}

/// Subtype unification: the halo of `t1` above `t2` and the substitution that makes
/// `t1` a subtype of `t2`, or the constraint that failed.
pub fn subtype_unify(t1: &TypeTerm, t2: &TypeTerm) -> (r: Result<(TypeTerm, HashMapSubst), ConstraintError>)
    requires
        spec_subtype_unify(t1@, t2@, STEP_BUDGET as nat) is Some,
    ensures
        spec_subtype_unify(t1@, t2@, STEP_BUDGET as nat) == Some(match r {
            Ok((t, s)) => Ok((t@, subst_view(s))),
            Err(e) => Err(e@),
        }),
{
    match subtype_unify_f(t1, t2, STEP_BUDGET) {
        Some(r) => r,
        None => Ok((TypeTerm::unit(), HashMap::new())),
    }
}

/// Parallel unification of `t1` and `t2`.
pub fn parallel_unify(t1: &TypeTerm, t2: &TypeTerm) -> (r: Result<(TypeTerm, HashMapSubst), ConstraintError>)
    requires
        spec_parallel_unify(t1@, t2@, STEP_BUDGET as nat) is Some,
    ensures
        spec_parallel_unify(t1@, t2@, STEP_BUDGET as nat) == Some(match r {
            Ok((t, s)) => Ok((t@, subst_view(s))),
            Err(e) => Err(e@),
        }),
{
    match parallel_unify_f(t1, t2, STEP_BUDGET) {
        Some(r) => r,
        None => Ok((TypeTerm::unit(), HashMap::new())),
    }
}

/// Applies the substitution to each of its own terms and normalizes them.
pub fn saturate(s: &mut HashMapSubst)
    requires
        spec_saturate(subst_view(*old(s)), STEP_BUDGET as nat) is Some,
    ensures
        spec_saturate(subst_view(*old(s)), STEP_BUDGET as nat) == Some(subst_view(*final(s))),
{
    match saturate_f(s, STEP_BUDGET) {
        Some(m) => {
            *s = m;
        },
        None => {},
    }
}

} // verus!
