//! The law that a successful unification gives a unifier.

use vstd::prelude::*;
use crate::term::TermV;
use crate::saturation::{lemma_saturate_done, lemma_saturate_fails, lemma_saturate_zero};
use crate::substitution::{spec_apply, spec_apply_seq};
use crate::term_ops::{spec_contains_var, spec_any_contains_var};
use crate::semantics::{
    Cp2V, CsV, ErrV, apply_cp2, spec_bind, spec_eq_loop, spec_eval_eq, spec_new_cs, spec_normalize,
    spec_normalize_seq, spec_norm_applied, spec_rev_pairs, spec_saturate, spec_saturate_ok,
    spec_saturated_map, spec_solve, spec_strip_map, spec_unify, with_eqs, with_sigma, cp2, spec_sub_loop, spec_trait_loop,
};

verus! {

/// A plain term: built from type ids, variables, numbers and characters by applications.
pub open spec fn spec_plain(t: TermV) -> bool
    decreases t,
{
    match t {
        TermV::Id(_) | TermV::Var(_) | TermV::Num(_) | TermV::Char(_) => true,
        TermV::Spec(a) => spec_all_plain(a),
        _ => false,
    }
}

pub open spec fn spec_all_plain(a: Seq<TermV>) -> bool
    decreases a,
{
    a.len() > 0 ==> spec_all_plain(a.subrange(0, a.len() - 1)) && spec_plain(a[a.len() - 1])
}

/// Whether `ss` agrees with `s`: each variable bound by `s` becomes under `ss` what its
/// term becomes.
pub open spec fn spec_models(ss: Map<u64, TermV>, s: Map<u64, TermV>) -> bool {
    forall|k: u64| #[trigger] s.contains_key(k) ==> spec_apply(TermV::Var(k), ss) == spec_apply(s[k], ss)
}

/// Whether `ss` makes both sides of `p` the same term.
pub open spec fn spec_solves(ss: Map<u64, TermV>, p: Cp2V) -> bool {
    spec_apply(p.lhs, ss) == spec_apply(p.rhs, ss)
}

/// Whether `ss` solves each pair of `ps`.
pub open spec fn spec_solves_all(ss: Map<u64, TermV>, ps: Seq<Cp2V>) -> bool {
    forall|i: int| 0 <= i < ps.len() ==> spec_solves(ss, #[trigger] ps[i])
}

/// Whether each pair of `ps` has plain sides.
pub open spec fn spec_plain_pairs(ps: Seq<Cp2V>) -> bool {
    forall|i: int| 0 <= i < ps.len() ==> spec_plain((#[trigger] ps[i]).lhs) && spec_plain(ps[i].rhs)
}

/// A substitution of plain terms in which no term holds a variable that it binds.
pub open spec fn spec_good(s: Map<u64, TermV>) -> bool {
    &&& forall|k: u64| #[trigger] s.contains_key(k) ==> spec_plain(s[k])
    &&& forall|k: u64, k2: u64| #[trigger] s.contains_key(k) && #[trigger] s.contains_key(k2) ==> !spec_contains_var(s[k], k2 as int)
}

proof fn lemma_apply_plain(t: TermV, s: Map<u64, TermV>)
    requires
        spec_plain(t),
        forall|k: u64| #[trigger] s.contains_key(k) ==> spec_plain(s[k]),
    ensures
        spec_plain(spec_apply(t, s)),
    decreases t, 1int,
{
    if let TermV::Spec(a) = t {
        lemma_apply_plain_seq(a, s);
    }
}

proof fn lemma_apply_plain_seq(a: Seq<TermV>, s: Map<u64, TermV>)
    requires
        spec_all_plain(a),
        forall|k: u64| #[trigger] s.contains_key(k) ==> spec_plain(s[k]),
    ensures
        spec_all_plain(spec_apply_seq(a, s)),
    decreases a, 0int,
{
    if a.len() > 0 {
        let p = a.subrange(0, a.len() - 1);
        lemma_apply_plain_seq(p, s);
        lemma_apply_plain(a[a.len() - 1], s);
        let r = spec_apply_seq(a, s);
        assert(r.subrange(0, r.len() - 1) =~= spec_apply_seq(p, s));
    }
}

/// A plain term without any variable that `s` binds stays as it is.
proof fn lemma_apply_id(t: TermV, s: Map<u64, TermV>)
    requires
        spec_plain(t),
        forall|k: u64| #[trigger] s.contains_key(k) ==> !spec_contains_var(t, k as int),
    ensures
        spec_apply(t, s) == t,
    decreases t, 1int,
{
    if let TermV::Spec(a) = t {
        lemma_apply_id_seq(a, s);
    }
}

proof fn lemma_apply_id_seq(a: Seq<TermV>, s: Map<u64, TermV>)
    requires
        spec_all_plain(a),
        forall|k: u64| #[trigger] s.contains_key(k) ==> !spec_any_contains_var(a, k as int),
    ensures
        spec_apply_seq(a, s) == a,
    decreases a, 0int,
{
    if a.len() > 0 {
        let p = a.subrange(0, a.len() - 1);
        lemma_apply_id_seq(p, s);
        lemma_apply_id(a[a.len() - 1], s);
        assert(p.push(a[a.len() - 1]) =~= a);
    }
}

/// A variable `k` is gone after applying `s` where `s` binds it or the term lacks it,
/// and no term that `s` puts in holds it.
proof fn lemma_cv_apply(t: TermV, s: Map<u64, TermV>, k: u64)
    requires
        spec_plain(t),
        forall|x: u64| #[trigger] s.contains_key(x) && spec_contains_var(t, x as int) ==> !spec_contains_var(s[x], k as int),
        s.contains_key(k) || !spec_contains_var(t, k as int),
    ensures
        !spec_contains_var(spec_apply(t, s), k as int),
    decreases t, 1int,
{
    if let TermV::Spec(a) = t {
        lemma_cv_apply_seq(a, s, k);
    }
}

proof fn lemma_cv_apply_seq(a: Seq<TermV>, s: Map<u64, TermV>, k: u64)
    requires
        spec_all_plain(a),
        forall|x: u64| #[trigger] s.contains_key(x) && spec_any_contains_var(a, x as int) ==> !spec_contains_var(s[x], k as int),
        s.contains_key(k) || !spec_any_contains_var(a, k as int),
    ensures
        !spec_any_contains_var(spec_apply_seq(a, s), k as int),
    decreases a, 0int,
{
    if a.len() > 0 {
        let p = a.subrange(0, a.len() - 1);
        lemma_cv_apply_seq(p, s, k);
        lemma_cv_apply(a[a.len() - 1], s, k);
        let r = spec_apply_seq(a, s);
        assert(r.subrange(0, r.len() - 1) =~= spec_apply_seq(p, s));
    }
}

/// Applying `s` and then `ss` is applying `ss` where `ss` agrees with `s` on the
/// variables of the term.
proof fn lemma_compose(t: TermV, s: Map<u64, TermV>, ss: Map<u64, TermV>)
    requires
        spec_plain(t),
        forall|x: u64| #[trigger] s.contains_key(x) && spec_contains_var(t, x as int)
            ==> spec_apply(TermV::Var(x), ss) == spec_apply(s[x], ss),
    ensures
        spec_apply(spec_apply(t, s), ss) == spec_apply(t, ss),
    decreases t, 1int,
{
    match t {
        TermV::Var(x) => {
            if s.contains_key(x) {
                assert(spec_contains_var(t, x as int));
            }
        },
        TermV::Spec(a) => {
            lemma_compose_seq(a, s, ss);
        },
        _ => {},
    }
}

proof fn lemma_compose_seq(a: Seq<TermV>, s: Map<u64, TermV>, ss: Map<u64, TermV>)
    requires
        spec_all_plain(a),
        forall|x: u64| #[trigger] s.contains_key(x) && spec_any_contains_var(a, x as int)
            ==> spec_apply(TermV::Var(x), ss) == spec_apply(s[x], ss),
    ensures
        spec_apply_seq(spec_apply_seq(a, s), ss) == spec_apply_seq(a, ss),
    decreases a, 0int,
{
    if a.len() > 0 {
        let p = a.subrange(0, a.len() - 1);
        lemma_compose_seq(p, s, ss);
        lemma_compose(a[a.len() - 1], s, ss);
        let r = spec_apply_seq(a, s);
        assert(r.subrange(0, r.len() - 1) =~= spec_apply_seq(p, s));
        assert(r[r.len() - 1] == spec_apply(a[a.len() - 1], s));
    }
}

/// A plain term is its own normal form.
proof fn lemma_norm_id(t: TermV, fuel: nat)
    requires
        spec_plain(t),
        spec_normalize(t, fuel) is Some,
    ensures
        spec_normalize(t, fuel) == Some(t),
    decreases t, 1int,
{
    if let TermV::Spec(a) = t {
        lemma_norm_id_seq(a, (fuel - 1) as nat);
    }
}

proof fn lemma_norm_id_seq(a: Seq<TermV>, fuel: nat)
    requires
        spec_all_plain(a),
        spec_normalize_seq(a, fuel) is Some,
    ensures
        spec_normalize_seq(a, fuel) == Some(a),
    decreases a, 0int,
{
    if a.len() > 0 {
        let p = a.subrange(0, a.len() - 1);
        lemma_norm_id_seq(p, fuel);
        lemma_norm_id(a[a.len() - 1], fuel);
        assert(p.push(a[a.len() - 1]) =~= a);
    }
}

/// The pairs of two applications have plain sides, and a substitution that solves them
/// makes both argument lists the same.
proof fn lemma_rev_pairs(addr: Seq<usize>, a: Seq<TermV>, b: Seq<TermV>, ss: Map<u64, TermV>)
    requires
        a.len() == b.len(),
        spec_all_plain(a),
        spec_all_plain(b),
    ensures
        spec_plain_pairs(spec_rev_pairs(addr, a, b)),
        spec_solves_all(ss, spec_rev_pairs(addr, a, b)) ==> spec_apply_seq(a, ss) == spec_apply_seq(b, ss),
    decreases a.len(),
{
    if a.len() > 0 {
        let pa = a.subrange(0, a.len() - 1);
        let pb = b.subrange(0, b.len() - 1);
        lemma_rev_pairs(addr, pa, pb, ss);
        let r = spec_rev_pairs(addr, a, b);
        let rest = spec_rev_pairs(addr, pa, pb);
        assert(r == seq![cp2(addr.push((a.len() - 1) as usize), a[a.len() - 1], b[b.len() - 1])] + rest);
        assert forall|i: int| 0 <= i < r.len() implies spec_plain((#[trigger] r[i]).lhs) && spec_plain(r[i].rhs) by {
            if i > 0 {
                assert(r[i] == rest[i - 1]);
            }
        }
        if spec_solves_all(ss, r) {
            assert forall|i: int| 0 <= i < rest.len() implies spec_solves(ss, #[trigger] rest[i]) by {
                assert(r[i + 1] == rest[i]);
            }
            assert(spec_solves(ss, r[0]));
            let ra = spec_apply_seq(pa, ss).push(spec_apply(a[a.len() - 1], ss));
            assert(spec_apply_seq(a, ss) == ra);
        }
    }
}

/// Saturation that succeeds gives the map of the normalized applied terms.
#[verifier::spinoff_prover]
proof fn lemma_sat_map(m: Map<u64, TermV>, fuel: nat)
    requires
        spec_saturate(m, fuel) is Some,
    ensures
        fuel >= 1,
        spec_saturate(m, fuel) == Some(spec_saturated_map(m, (fuel - 1) as nat)),
        forall|x: u64| #[trigger] m.contains_key(x) ==> spec_norm_applied(m[x], m, (fuel - 1) as nat) is Some,
{
    if fuel == 0 {
        lemma_saturate_zero(m);
    }
    let f = (fuel - 1) as nat;
    assert forall|x: u64| #[trigger] m.contains_key(x) implies spec_norm_applied(m[x], m, f) is Some by {
        if spec_norm_applied(m[x], m, f) is None {
            lemma_saturate_fails(m, x, fuel);
        }
    }
    let rv = spec_saturated_map(m, f);
    assert(rv.dom() =~= m.dom());
    assert forall|x: u64| #[trigger] rv.contains_key(x) implies spec_norm_applied(m[x], m, f) == Some(rv[x]) by {
        assert(m.contains_key(x));
    }
    lemma_saturate_done(m, rv, fuel);
}

/// What saturating `m` gives for variable `k`: its term with `m` applied, normalized.
proof fn lemma_sat_entry(m: Map<u64, TermV>, fuel: nat, k: u64)
    requires
        spec_saturate(m, fuel) is Some,
        m.contains_key(k),
    ensures
        spec_saturate(m, fuel).unwrap().dom() == m.dom(),
        spec_normalize(spec_apply(m[k], m), (fuel - 1) as nat) == Some(spec_saturate(m, fuel).unwrap()[k]),
{
    lemma_sat_map(m, fuel);
    let f = (fuel - 1) as nat;
    assert(spec_norm_applied(m[k], m, f) is Some);
    assert(spec_norm_applied(m[k], m, f) == spec_normalize(spec_apply(m[k], m), f)) by {
        reveal(spec_norm_applied);
    }
    assert(spec_saturated_map(m, f).dom() =~= m.dom());
}

/// Binding variable `v` to `t` (neither holding `v` nor a variable that `s` binds) and
/// saturating keeps the substitution good, and a substitution that agrees with the result
/// agrees with `s` and solves the binding.
#[verifier::spinoff_prover]
proof fn lemma_bind_sat(s: Map<u64, TermV>, v: u64, t: TermV, fuel: nat)
    requires
        spec_good(s),
        spec_plain(t),
        !spec_contains_var(t, v as int),
        !s.contains_key(v),
        forall|k: u64| #[trigger] s.contains_key(k) ==> !spec_contains_var(t, k as int),
        spec_saturate(s.insert(v, t), fuel) is Some,
    ensures
        spec_good(spec_saturate(s.insert(v, t), fuel).unwrap()),
        forall|ss: Map<u64, TermV>| spec_models(ss, spec_saturate(s.insert(v, t), fuel).unwrap())
            ==> spec_models(ss, s) && spec_apply(TermV::Var(v), ss) == spec_apply(t, ss),
{
    let m = s.insert(v, t);
    let f = (fuel - 1) as nat;
    let s2 = spec_saturate(m, fuel).unwrap();
    assert forall|k: u64| #[trigger] m.contains_key(k) implies spec_plain(m[k]) by {}
    // the binding itself stays
    assert(m.contains_key(v) && m[v] == t);
    lemma_sat_entry(m, fuel, v);
    lemma_apply_id(t, m);
    lemma_norm_id(t, f);
    assert(s2[v] == t);
    // each other term takes `t` for `v`
    assert forall|k: u64| #[trigger] s.contains_key(k) implies s2[k] == spec_apply(s[k], m)
        && spec_plain(s2[k]) by {
        assert(m.contains_key(k) && m[k] == s[k]);
        lemma_sat_entry(m, fuel, k);
        lemma_apply_plain(s[k], m);
        lemma_norm_id(spec_apply(s[k], m), f);
    }
    assert(s2.dom() =~= m.dom());
    // no term holds a bound variable
    assert forall|k: u64, k2: u64| #[trigger] s2.contains_key(k) && #[trigger] s2.contains_key(k2)
        implies !spec_contains_var(s2[k], k2 as int) by {
        if k != v {
            assert(s.contains_key(k));
            assert forall|x: u64| #[trigger] m.contains_key(x) && spec_contains_var(s[k], x as int)
                implies !spec_contains_var(m[x], k2 as int) by {
                if x != v {
                    assert(s.contains_key(x));
                    assert(!spec_contains_var(s[k], x as int));
                }
            }
            lemma_cv_apply(s[k], m, k2);
        }
    }
    // a substitution that agrees with the result
    assert forall|ss: Map<u64, TermV>| spec_models(ss, s2) implies spec_models(ss, s)
        && spec_apply(TermV::Var(v), ss) == spec_apply(t, ss) by {
        assert(s2.contains_key(v));
        assert forall|k: u64| #[trigger] s.contains_key(k) implies spec_apply(TermV::Var(k), ss) == spec_apply(s[k], ss) by {
            assert(s2.contains_key(k));
            assert forall|x: u64| #[trigger] m.contains_key(x) && spec_contains_var(s[k], x as int)
                implies spec_apply(TermV::Var(x), ss) == spec_apply(m[x], ss) by {
                if x != v {
                    assert(s.contains_key(x));
                    assert(!spec_contains_var(s[k], x as int));
                }
            }
            lemma_compose(s[k], m, ss);
        }
    }
}

/// One equation between plain terms without variables that the substitution binds:
/// where it holds, the substitution stays good, the new equations are plain, and a
/// substitution that agrees with the result and solves the new equations agrees with the
/// old one and solves the equation.
#[verifier::spinoff_prover]
proof fn lemma_eval_eq(cs: CsV, p: Cp2V, fuel: nat)
    requires
        spec_good(cs.sigma),
        spec_plain(p.lhs),
        spec_plain(p.rhs),
        forall|k: u64| #[trigger] cs.sigma.contains_key(k) ==> !spec_contains_var(p.lhs, k as int) && !spec_contains_var(p.rhs, k as int),
    ensures
        spec_eval_eq(cs, p, fuel) matches Some((cs2, Ok(()))) ==> {
            let new = cs2.eqs.subrange(cs.eqs.len() as int, cs2.eqs.len() as int);
            &&& cs.eqs.len() <= cs2.eqs.len()
            &&& cs2.eqs.subrange(0, cs.eqs.len() as int) == cs.eqs
            &&& spec_plain_pairs(new)
            &&& spec_good(cs2.sigma)
            &&& cs2.upper == cs.upper && cs2.lower == cs.lower && cs2.subs == cs.subs && cs2.traits == cs.traits
            &&& forall|ss: Map<u64, TermV>| spec_models(ss, cs2.sigma) && spec_solves_all(ss, new)
                ==> spec_models(ss, cs.sigma) && spec_solves(ss, p)
        },
{
    if fuel > 0 {
        let f = (fuel - 1) as nat;
        if let Some((cs2, Ok(()))) = spec_eval_eq(cs, p, fuel) {
            let empty_new = cs2.eqs.subrange(cs.eqs.len() as int, cs2.eqs.len() as int);
            match (p.lhs, p.rhs) {
                (TermV::Var(v), t) => {
                    assert(spec_eval_eq(cs, p, fuel) == spec_bind(cs, p.addr, v, t, f));
                    lemma_bind_case(cs, p.addr, v, t, f, p, cs2);
                    assert(cs2.eqs.subrange(0, cs.eqs.len() as int) =~= cs.eqs);
                    assert(empty_new =~= Seq::<Cp2V>::empty());
                    assert forall|ss: Map<u64, TermV>| spec_models(ss, cs2.sigma) && spec_solves_all(ss, empty_new)
                        implies spec_models(ss, cs.sigma) && spec_solves(ss, p) by {
                        assert(spec_models(ss, cs2.sigma));
                    }
                },
                (t, TermV::Var(v)) => {
                    assert(spec_eval_eq(cs, p, fuel) == spec_bind(cs, p.addr, v, t, f));
                    lemma_bind_case(cs, p.addr, v, t, f, p, cs2);
                    assert(cs2.eqs.subrange(0, cs.eqs.len() as int) =~= cs.eqs);
                    assert(empty_new =~= Seq::<Cp2V>::empty());
                    assert forall|ss: Map<u64, TermV>| spec_models(ss, cs2.sigma) && spec_solves_all(ss, empty_new)
                        implies spec_models(ss, cs.sigma) && spec_solves(ss, p) by {
                        assert(spec_models(ss, cs2.sigma));
                    }
                },
                (TermV::Spec(a1), TermV::Spec(a2)) => {
                    assert(cs2 == with_eqs(cs, cs.eqs + spec_rev_pairs(p.addr, a1, a2)));
                    assert(cs2.sigma == cs.sigma);
                    assert(cs2.eqs.subrange(0, cs.eqs.len() as int) =~= cs.eqs);
                    assert(empty_new =~= spec_rev_pairs(p.addr, a1, a2));
                    assert forall|ss: Map<u64, TermV>| spec_models(ss, cs2.sigma) && spec_solves_all(ss, empty_new)
                        implies spec_models(ss, cs.sigma) && spec_solves(ss, p) by {
                        lemma_rev_pairs(p.addr, a1, a2, ss);
                    }
                    lemma_rev_pairs(p.addr, a1, a2, Map::empty());
                },
                _ => {
                    assert(!(p.lhs is Ladder) && !(p.lhs is Sequence) && !(p.lhs is Struct) && !(p.lhs is Enum));
                    assert(!(p.rhs is Ladder) && !(p.rhs is Sequence) && !(p.rhs is Struct) && !(p.rhs is Enum));
                    assert(cs2 == cs);
                    assert(cs2.sigma == cs.sigma);
                    assert(p.lhs == p.rhs);
                    assert(cs2.eqs.subrange(0, cs.eqs.len() as int) =~= cs.eqs);
                    assert(empty_new =~= Seq::<Cp2V>::empty());
                    assert forall|ss: Map<u64, TermV>| spec_models(ss, cs2.sigma) && spec_solves_all(ss, empty_new)
                        implies spec_models(ss, cs.sigma) && spec_solves(ss, p) by {
                        assert(spec_models(ss, cs2.sigma));
                    }
                },
            }
        }
    }
}

#[verifier::spinoff_prover]
proof fn lemma_bind_case(cs: CsV, addr: Seq<usize>, v: u64, t: TermV, f: nat, p: Cp2V, cs2: CsV)
    requires
        spec_good(cs.sigma),
        spec_plain(t),
        (p.lhs == TermV::Var(v) && p.rhs == t) || (p.rhs == TermV::Var(v) && p.lhs == t),
        forall|k: u64| #[trigger] cs.sigma.contains_key(k) ==> !spec_contains_var(p.lhs, k as int) && !spec_contains_var(p.rhs, k as int),
        spec_bind(cs, addr, v, t, f) == Some((cs2, Ok::<(), ErrV>(()))),
    ensures
        cs2.eqs == cs.eqs,
        spec_good(cs2.sigma),
        cs2.upper == cs.upper && cs2.lower == cs.lower && cs2.subs == cs.subs && cs2.traits == cs.traits,
        forall|ss: Map<u64, TermV>| #[trigger] spec_models(ss, cs2.sigma) ==> spec_models(ss, cs.sigma) && spec_solves(ss, p),
{
    assert forall|k: u64| #[trigger] cs.sigma.contains_key(k) implies !spec_contains_var(t, k as int) by {}
    if cs.sigma.contains_key(v) {
        assert(spec_contains_var(TermV::Var(v), v as int));
    }
    if !spec_contains_var(t, v as int) {
        lemma_bind_sat(cs.sigma, v, t, f);
        let s2 = spec_saturate(cs.sigma.insert(v, t), f).unwrap();
        assert(cs2 == with_sigma(cs, s2));
    } else {
        assert(t == TermV::Var(v));
        assert(cs2 == cs);
    }
}

/// The loop over the equations keeps the substitution good, and a substitution that
/// agrees with the final one agrees with the first one and solves every equation.
#[verifier::spinoff_prover]
proof fn lemma_eq_loop(cs: CsV, fuel: nat)
    requires
        spec_good(cs.sigma),
        spec_plain_pairs(cs.eqs),
    ensures
        spec_eq_loop(cs, fuel) matches Some((cs2, Ok(()))) ==> {
            &&& spec_good(cs2.sigma)
            &&& cs2.upper == cs.upper && cs2.lower == cs.lower && cs2.subs == cs.subs && cs2.traits == cs.traits
            &&& forall|ss: Map<u64, TermV>| spec_models(ss, cs2.sigma) ==> spec_models(ss, cs.sigma) && spec_solves_all(ss, cs.eqs)
        },
    decreases fuel,
{
    if fuel > 0 && cs.eqs.len() > 0 {
        let f = (fuel - 1) as nat;
        let p = cs.eqs[cs.eqs.len() - 1];
        let pre = cs.eqs.subrange(0, cs.eqs.len() - 1);
        let cs1 = with_eqs(cs, pre);
        let q = apply_cp2(p, cs1.sigma);
        assert forall|k: u64| #[trigger] cs.sigma.contains_key(k) implies spec_plain(cs.sigma[k]) by {}
        lemma_apply_plain(p.lhs, cs.sigma);
        lemma_apply_plain(p.rhs, cs.sigma);
        assert forall|k: u64| #[trigger] cs1.sigma.contains_key(k) implies !spec_contains_var(q.lhs, k as int) && !spec_contains_var(q.rhs, k as int) by {
            lemma_cv_apply(p.lhs, cs.sigma, k);
            lemma_cv_apply(p.rhs, cs.sigma, k);
        }
        lemma_eval_eq(cs1, q, f);
        if let Some((cs2, Ok(()))) = spec_eval_eq(cs1, q, f) {
            let new = cs2.eqs.subrange(pre.len() as int, cs2.eqs.len() as int);
            assert(cs2.eqs =~= pre + new);
            assert forall|i: int| 0 <= i < cs2.eqs.len() implies spec_plain((#[trigger] cs2.eqs[i]).lhs) && spec_plain(cs2.eqs[i].rhs) by {
                if i < pre.len() {
                    assert(cs2.eqs[i] == pre[i]);
                    assert(pre[i] == cs.eqs[i]);
                } else {
                    assert(cs2.eqs[i] == new[i - pre.len()]);
                }
            }
            lemma_eq_loop(cs2, f);
            if let Some((cs3, Ok(()))) = spec_eq_loop(cs2, f) {
                assert(spec_eq_loop(cs, fuel) == spec_eq_loop(cs2, f));
                assert forall|ss: Map<u64, TermV>| spec_models(ss, cs3.sigma) implies spec_models(ss, cs.sigma)
                    && spec_solves_all(ss, cs.eqs) by {
                    assert(spec_solves_all(ss, new)) by {
                        assert forall|i: int| 0 <= i < new.len() implies spec_solves(ss, #[trigger] new[i]) by {
                            assert(cs2.eqs[pre.len() + i] == new[i]);
                        }
                    }
                    assert(spec_solves(ss, q));
                    assert forall|x: u64| #[trigger] cs.sigma.contains_key(x) && spec_contains_var(p.lhs, x as int)
                        implies spec_apply(TermV::Var(x), ss) == spec_apply(cs.sigma[x], ss) by {}
                    assert forall|x: u64| #[trigger] cs.sigma.contains_key(x) && spec_contains_var(p.rhs, x as int)
                        implies spec_apply(TermV::Var(x), ss) == spec_apply(cs.sigma[x], ss) by {}
                    lemma_compose(p.lhs, cs.sigma, ss);
                    lemma_compose(p.rhs, cs.sigma, ss);
                    assert forall|i: int| 0 <= i < cs.eqs.len() implies spec_solves(ss, #[trigger] cs.eqs[i]) by {
                        if i < pre.len() {
                            assert(cs2.eqs[i] == pre[i]);
                            assert(spec_solves(ss, cs2.eqs[i]));
                        }
                    }
                }
            }
        }
    }
}

/// Saturating a good substitution leaves it as it is.
#[verifier::spinoff_prover]
proof fn lemma_saturate_good(sm: Map<u64, TermV>, fuel: nat)
    requires
        spec_good(sm),
        spec_saturate(sm, fuel) is Some,
    ensures
        spec_saturate(sm, fuel) == Some(sm),
{
    let f = (fuel - 1) as nat;
    let sat = spec_saturate(sm, fuel).unwrap();
    assert forall|k: u64| #[trigger] sm.contains_key(k) implies sat[k] == sm[k] by {
        lemma_sat_entry(sm, fuel, k);
        lemma_apply_id(sm[k], sm);
        lemma_norm_id(sm[k], f);
    }
    lemma_sat_map(sm, fuel);
    assert(sat.dom() =~= sm.dom());
    assert(sat =~= sm);
}

/// Unification of two plain terms (built from type ids, variables, numbers and
/// characters by applications) that succeeds gives a unifier: both terms become the same
/// term under it.  Its terms are plain, and none holds a variable that it binds.
#[verifier::spinoff_prover]
#[verifier::rlimit(40)]
pub proof fn law_unify_unifies(t1: TermV, t2: TermV, fuel: nat, s: Map<u64, TermV>)
    requires
        spec_plain(t1),
        spec_plain(t2),
        spec_unify(t1, t2, fuel) == Some(Ok::<Map<u64, TermV>, ErrV>(s)),
    ensures
        spec_apply(t1, s) == spec_apply(t2, s),
        forall|k: u64| #[trigger] s.contains_key(k) ==> spec_plain(s[k]),
        forall|k: u64, k2: u64| #[trigger] s.contains_key(k) && #[trigger] s.contains_key(k2) ==> !spec_contains_var(s[k], k2 as int),
{
    let p0 = cp2(Seq::empty(), t1, t2);
    let cs0 = spec_new_cs(seq![p0], Seq::empty(), Seq::empty(), Seq::empty());
    let f = (fuel - 1) as nat;
    assert(spec_good(cs0.sigma));
    assert(spec_plain_pairs(cs0.eqs));
    lemma_eq_loop(cs0, f);
    let (cs1, _) = spec_eq_loop(cs0, f).unwrap();
    assert(cs1.subs.len() == 0 && cs1.traits.len() == 0);
    assert(cs1.upper == Map::<u64, TermV>::empty() && cs1.lower == Map::<u64, TermV>::empty());
    let sm = cs1.sigma.union_prefer_right(spec_strip_map(cs1.upper)).union_prefer_right(spec_strip_map(cs1.lower));
    assert(sm =~= cs1.sigma);
    assert(spec_sub_loop(cs1, cs1.subs, 0, Seq::empty(), f) == Some((cs1, Ok::<Seq<TermV>, ErrV>(Seq::<TermV>::empty()))));
    lemma_saturate_good(sm, f);
    let sat = sm;
    assert(with_sigma(cs1, sat) == cs1);
    assert(spec_trait_loop(cs1, f) == Some((cs1, Ok::<(), ErrV>(()))));
    assert(s == cs1.sigma);
    assert(spec_models(s, s)) by {
        assert forall|k: u64| #[trigger] s.contains_key(k) implies spec_apply(TermV::Var(k), s) == spec_apply(s[k], s) by {
            lemma_apply_id(s[k], s);
        }
    }
    assert(spec_solves(s, cs0.eqs[0]));
}

//------------------------------------------------------------------
// Law: unification of terms without variables
//------------------------------------------------------------------

/// A ground term: a plain term that holds no variable.
pub open spec fn spec_ground(t: TermV) -> bool {
    spec_plain(t) && forall|k: int| !#[trigger] spec_contains_var(t, k)
}

/// Whether each equation of `ps` has one ground term on both sides.
spec fn spec_same_ground_pairs(ps: Seq<Cp2V>) -> bool {
    forall|i: int| 0 <= i < ps.len() ==> (#[trigger] ps[i]).lhs == ps[i].rhs && spec_ground(ps[i].lhs)
}

/// The pairs of an application with itself have one ground term on both sides.
proof fn lemma_rev_pairs_same(addr: Seq<usize>, a: Seq<TermV>)
    requires
        spec_all_plain(a),
        forall|k: int| !#[trigger] spec_any_contains_var(a, k),
    ensures
        spec_same_ground_pairs(spec_rev_pairs(addr, a, a)),
    decreases a.len(),
{
    if a.len() > 0 {
        let pa = a.subrange(0, a.len() - 1);
        let last = a[a.len() - 1];
        assert forall|k: int| !#[trigger] spec_any_contains_var(pa, k) by {
            assert(!spec_any_contains_var(a, k));
        }
        assert forall|k: int| !#[trigger] spec_contains_var(last, k) by {
            assert(!spec_any_contains_var(a, k));
        }
        lemma_rev_pairs_same(addr, pa);
        let r = spec_rev_pairs(addr, a, a);
        let rest = spec_rev_pairs(addr, pa, pa);
        assert(r == seq![cp2(addr.push((a.len() - 1) as usize), last, last)] + rest);
        assert forall|i: int| 0 <= i < r.len() implies (#[trigger] r[i]).lhs == r[i].rhs && spec_ground(r[i].lhs) by {
            if i > 0 {
                assert(r[i] == rest[i - 1]);
            }
        }
    }
}

/// Equations whose sides are one and the same ground term are solved without a binding:
/// the loop never fails on them, and it leaves the substitution empty.
#[verifier::spinoff_prover]
proof fn lemma_eq_loop_same(cs: CsV, fuel: nat)
    requires
        cs.sigma == Map::<u64, TermV>::empty(),
        spec_same_ground_pairs(cs.eqs),
    ensures
        spec_eq_loop(cs, fuel) matches Some((cs2, r)) ==> {
            &&& r is Ok
            &&& cs2.sigma == Map::<u64, TermV>::empty()
            &&& cs2.upper == cs.upper && cs2.lower == cs.lower && cs2.subs == cs.subs && cs2.traits == cs.traits
        },
    decreases fuel,
{
    if fuel > 0 && cs.eqs.len() > 0 {
        let f = (fuel - 1) as nat;
        let p = cs.eqs[cs.eqs.len() - 1];
        let pre = cs.eqs.subrange(0, cs.eqs.len() - 1);
        let cs1 = with_eqs(cs, pre);
        let t = p.lhs;
        assert(p.lhs == p.rhs && spec_ground(t));
        lemma_apply_id(t, Map::<u64, TermV>::empty());
        let q = apply_cp2(p, cs1.sigma);
        assert(q == cp2(p.addr, t, t));
        assert(spec_same_ground_pairs(pre)) by {
            assert forall|i: int| 0 <= i < pre.len() implies (#[trigger] pre[i]).lhs == pre[i].rhs && spec_ground(pre[i].lhs) by {
                assert(pre[i] == cs.eqs[i]);
            }
        }
        if f > 0 {
            match t {
                TermV::Spec(a) => {
                    assert forall|k: int| !#[trigger] spec_any_contains_var(a, k) by {
                        assert(!spec_contains_var(t, k));
                    }
                    lemma_rev_pairs_same(p.addr, a);
                    let new = spec_rev_pairs(p.addr, a, a);
                    let cs2 = with_eqs(cs1, pre + new);
                    assert(spec_eval_eq(cs1, q, f) == Some((cs2, Ok::<(), ErrV>(()))));
                    assert(spec_same_ground_pairs(pre + new)) by {
                        assert forall|i: int| 0 <= i < (pre + new).len()
                            implies (#[trigger] (pre + new)[i]).lhs == (pre + new)[i].rhs && spec_ground((pre + new)[i].lhs) by {
                            if i < pre.len() {
                                assert((pre + new)[i] == pre[i]);
                            } else {
                                assert((pre + new)[i] == new[i - pre.len()]);
                            }
                        }
                    }
                    lemma_eq_loop_same(cs2, f);
                    assert(spec_eq_loop(cs, fuel) == spec_eq_loop(cs2, f));
                },
                TermV::Var(v) => {
                    assert(spec_contains_var(t, v as int));
                },
                _ => {
                    assert(spec_eval_eq(cs1, q, f) == Some((cs1, Ok::<(), ErrV>(()))));
                    lemma_eq_loop_same(cs1, f);
                    assert(spec_eq_loop(cs, fuel) == spec_eq_loop(cs1, f));
                },
            }
        }
    }
}

/// Unification of two terms without variables (built from type ids, numbers and
/// characters by applications) succeeds exactly where the two terms are equal, and then
/// with the empty substitution; where they differ it reports a mismatch.  (Where the
/// budget runs out there is no answer.)
#[verifier::spinoff_prover]
#[verifier::rlimit(40)]
pub proof fn law_unify_ground(t1: TermV, t2: TermV, fuel: nat)
    requires
        spec_ground(t1),
        spec_ground(t2),
    ensures
        match spec_unify(t1, t2, fuel) {
            Some(Ok(s)) => t1 == t2 && s == Map::<u64, TermV>::empty(),
            Some(Err(_)) => t1 != t2,
            None => true,
        },
{
    if let Some(Ok(s)) = spec_unify(t1, t2, fuel) {
        law_unify_unifies(t1, t2, fuel, s);
        lemma_apply_id(t1, s);
        lemma_apply_id(t2, s);
    }
    if t1 == t2 && fuel > 0 {
        let p0 = cp2(Seq::empty(), t1, t2);
        let cs0 = spec_new_cs(seq![p0], Seq::empty(), Seq::empty(), Seq::empty());
        let f = (fuel - 1) as nat;
        assert(spec_same_ground_pairs(cs0.eqs));
        lemma_eq_loop_same(cs0, f);
        if let Some((cs1, r)) = spec_eq_loop(cs0, f) {
            let empty = Map::<u64, TermV>::empty();
            assert(cs1.subs.len() == 0 && cs1.traits.len() == 0);
            assert(spec_sub_loop(cs1, cs1.subs, 0, Seq::empty(), f) == Some((cs1, Ok::<Seq<TermV>, ErrV>(Seq::<TermV>::empty()))));
            let sm = cs1.sigma.union_prefer_right(spec_strip_map(cs1.upper)).union_prefer_right(spec_strip_map(cs1.lower));
            assert(sm =~= empty);
            if f == 0 {
                lemma_saturate_zero(sm);
            } else {
                lemma_saturate_done(sm, empty, f);
                assert(with_sigma(cs1, empty) == cs1);
                assert(spec_trait_loop(cs1, f) == Some((cs1, Ok::<(), ErrV>(()))));
            }
        }
    }
}

/// The binding of a variable to a ground term: a good substitution.
proof fn lemma_binding_good(v: u64, t: TermV)
    requires
        spec_ground(t),
    ensures
        spec_good(Map::<u64, TermV>::empty().insert(v, t)),
{
    let m = Map::<u64, TermV>::empty().insert(v, t);
    assert forall|k: u64, k2: u64| #[trigger] m.contains_key(k) && #[trigger] m.contains_key(k2)
        implies !spec_contains_var(m[k], k2 as int) by {
        assert(!spec_contains_var(t, k2 as int));
    }
}

/// The loop over one equation between a variable and a ground term (on either side),
/// with nothing bound yet, binds the variable to the term.
#[verifier::spinoff_prover]
proof fn lemma_eq_loop_binding(p0: Cp2V, v: u64, t: TermV, fuel: nat)
    requires
        spec_ground(t),
        (p0.lhs == TermV::Var(v) && p0.rhs == t) || (p0.lhs == t && p0.rhs == TermV::Var(v)),
    ensures
        spec_eq_loop(spec_new_cs(seq![p0], Seq::empty(), Seq::empty(), Seq::empty()), fuel) matches Some((cs, r))
            ==> r is Ok && cs == with_sigma(
                spec_new_cs(Seq::empty(), Seq::empty(), Seq::empty(), Seq::empty()),
                Map::<u64, TermV>::empty().insert(v, t),
            ),
{
    let cs0 = spec_new_cs(seq![p0], Seq::empty(), Seq::empty(), Seq::empty());
    let empty = Map::<u64, TermV>::empty();
    let m = empty.insert(v, t);
    lemma_binding_good(v, t);
    assert(!spec_contains_var(t, v as int));
    if fuel >= 2 {
        let g = (fuel - 1) as nat;
        let cs1 = with_eqs(cs0, Seq::empty());
        assert(cs0.eqs.subrange(0, 0) =~= Seq::<Cp2V>::empty());
        lemma_apply_id(t, empty);
        let q = apply_cp2(p0, cs1.sigma);
        assert(q == p0);
        if g >= 1 {
            let h = (g - 1) as nat;
            if let TermV::Var(w) = t {
                assert(spec_contains_var(t, w as int));
            }
            assert(!(t is Var));
            if p0.lhs == TermV::Var(v) {
                assert(spec_eval_eq(cs1, q, g) == spec_bind(cs1, p0.addr, v, t, h));
            } else {
                assert(spec_eval_eq(cs1, q, g) == spec_bind(cs1, p0.addr, v, t, h));
            }
            if spec_saturate(m, h) is Some {
                lemma_saturate_good(m, h);
                let cs2 = with_sigma(cs1, m);
                assert(spec_bind(cs1, p0.addr, v, t, h) == Some((cs2, Ok::<(), ErrV>(()))));
                assert(spec_eq_loop(cs0, fuel) == spec_eq_loop(cs2, g));
                assert(spec_eq_loop(cs2, g) == Some((cs2, Ok::<(), ErrV>(()))));
                assert(cs2 == with_sigma(spec_new_cs(Seq::empty(), Seq::empty(), Seq::empty(), Seq::empty()), m));
            } else {
                assert(spec_bind(cs1, p0.addr, v, t, h) is None);
                assert(spec_eq_loop(cs0, fuel) is None);
            }
        } else {
            assert(spec_eval_eq(cs1, q, g) is None);
            assert(spec_eq_loop(cs0, fuel) is None);
        }
    } else if fuel == 1 {
        assert(spec_eval_eq(with_eqs(cs0, cs0.eqs.subrange(0, 0)), apply_cp2(p0, empty), 0) is None);
        assert(spec_eq_loop(cs0, fuel) is None);
    }
}

/// Solving one equation between a variable and a ground term (on either side), with
/// nothing bound yet, binds the variable to the term and nothing else.
#[verifier::spinoff_prover]
proof fn lemma_solve_binding(p0: Cp2V, v: u64, t: TermV, fuel: nat)
    requires
        spec_ground(t),
        (p0.lhs == TermV::Var(v) && p0.rhs == t) || (p0.lhs == t && p0.rhs == TermV::Var(v)),
    ensures
        spec_solve(spec_new_cs(seq![p0], Seq::empty(), Seq::empty(), Seq::empty()), fuel) matches Some(r)
            ==> r matches Ok((_, s)) && s == Map::<u64, TermV>::empty().insert(v, t),
{
    let cs0 = spec_new_cs(seq![p0], Seq::empty(), Seq::empty(), Seq::empty());
    let m = Map::<u64, TermV>::empty().insert(v, t);
    lemma_binding_good(v, t);
    if fuel >= 1 {
        let f = (fuel - 1) as nat;
        lemma_eq_loop_binding(p0, v, t, f);
        if let Some((cs2, r)) = spec_eq_loop(cs0, f) {
            assert(cs2.subs.len() == 0 && cs2.traits.len() == 0);
            assert(spec_sub_loop(cs2, cs2.subs, 0, Seq::empty(), f) == Some((cs2, Ok::<Seq<TermV>, ErrV>(Seq::<TermV>::empty()))));
            let sm = cs2.sigma.union_prefer_right(spec_strip_map(cs2.upper)).union_prefer_right(spec_strip_map(cs2.lower));
            assert(sm =~= m);
            if spec_saturate(m, f) is Some {
                lemma_saturate_good(m, f);
                assert(with_sigma(cs2, m) == cs2);
                assert(spec_trait_loop(cs2, f) == Some((cs2, Ok::<(), ErrV>(()))));
            }
        }
    }
}

/// Unifying a variable with a term without variables, on either side, binds the variable
/// to that term and nothing else.  (Where the budget runs out there is no answer.)
pub proof fn law_unify_binds_variable(v: u64, t: TermV, fuel: nat)
    requires
        spec_ground(t),
    ensures
        spec_unify(TermV::Var(v), t, fuel) matches Some(r) ==> r == Ok::<Map<u64, TermV>, ErrV>(Map::empty().insert(v, t)),
        spec_unify(t, TermV::Var(v), fuel) matches Some(r) ==> r == Ok::<Map<u64, TermV>, ErrV>(Map::empty().insert(v, t)),
{
    lemma_solve_binding(cp2(Seq::empty(), TermV::Var(v), t), v, t, fuel);
    lemma_solve_binding(cp2(Seq::empty(), t, TermV::Var(v)), v, t, fuel);
}

} // verus!
