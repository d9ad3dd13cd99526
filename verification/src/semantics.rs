//! Specification of parameter normalization and of the constraint solver.
//!
//! Normalization and constraint solving call each other (normalization asks whether
//! two parameters are subtypes; the solver normalizes the terms it binds), and some
//! inputs make them run without end or hit an unsupported case.  Every function here
//! therefore takes a step budget `fuel` and returns `None` when the budget runs out
//! or when the computation reaches a case that is not supported.

use vstd::prelude::*;
use crate::term::{TermV, FieldV};
use crate::term_ops::{spec_unit, spec_strip, spec_is_empty, spec_contains_var, spec_interface};
use crate::substitution::spec_apply;

verus! {

/// Model of a constraint between two terms, with its address inside the constraint it came from.
pub struct Cp2V {
    pub addr: Seq<usize>,
    pub lhs: TermV,
    pub rhs: TermV,
}

/// Model of a constraint error.
pub struct ErrV {
    pub addr: Seq<usize>,
    pub t1: TermV,
    pub t2: TermV,
}

/// Model of the solver state.
pub struct CsV {
    pub sigma: Map<u64, TermV>,
    pub upper: Map<u64, TermV>,
    pub lower: Map<u64, TermV>,
    pub eqs: Seq<Cp2V>,
    pub subs: Seq<Cp2V>,
    pub traits: Seq<Cp2V>,
    pub pars: Seq<Cp2V>,
}

pub open spec fn cp2(addr: Seq<usize>, lhs: TermV, rhs: TermV) -> Cp2V {
    Cp2V { addr, lhs, rhs }
}

pub open spec fn err(addr: Seq<usize>, t1: TermV, t2: TermV) -> ErrV {
    ErrV { addr, t1, t2 }
}

pub open spec fn ladder2(a: TermV, b: TermV) -> TermV {
    TermV::Ladder(seq![a, b])
}

pub open spec fn opt_or_unit(o: Option<Box<TermV>>) -> TermV {
    match o {
        Some(b) => *b,
        None => spec_unit(),
    }
}

//------------------------------------------------------------------
// Ladder splicing and overlap
//------------------------------------------------------------------

/// The first index of `x` in `s`.
pub open spec fn spec_first_index(s: Seq<TermV>, x: TermV) -> Option<int>
    decreases s.len(),
{
    if s.len() == 0 {
        None
    } else {
        match spec_first_index(s.subrange(0, s.len() - 1), x) {
            Some(i) => Some(i),
            None => if s[s.len() - 1] == x { Some(s.len() - 1) } else { None },
        }
    }
}

/// Joins two ladders: where the top rung of `lower` occurs in `upper`, `upper` is cut there.
pub open spec fn spec_splice(upper: Seq<TermV>, lower: Seq<TermV>) -> Seq<TermV> {
    if lower.len() > 0 {
        match spec_first_index(upper, lower[0]) {
            Some(i) => upper.subrange(0, i) + lower,
            None => upper + lower,
        }
    } else {
        upper
    }
}

/// Whether some suffix of `rs1` starts like `rs2`.
pub open spec fn spec_ladders_overlap(rs1: Seq<TermV>, rs2: Seq<TermV>) -> bool {
    exists|i: int| 0 <= i < rs1.len() && #[trigger] spec_matches_at(rs1, rs2, i)
}

/// `rs1` from index `i` on agrees with `rs2` as far as both go.
pub open spec fn spec_matches_at(rs1: Seq<TermV>, rs2: Seq<TermV>, i: int) -> bool {
    forall|j: int| 0 <= j < rs1.len() - i && j < rs2.len() ==> rs1[i + j] == #[trigger] rs2[j]
}

/// Whether two terms overlap; `None` where the comparison is not supported.
pub open spec fn spec_overlaps(a: TermV, b: TermV) -> Option<bool>
    decreases a, b,
{
    match (a, b) {
        (TermV::Ladder(rs1), TermV::Ladder(rs2)) => Some(spec_ladders_overlap(rs1, rs2)),
        (TermV::Ladder(rs1), b) => if rs1.len() == 0 { None } else { spec_overlaps(rs1[rs1.len() - 1], b) },
        (a, TermV::Ladder(rs2)) => if rs2.len() == 0 { None } else { spec_overlaps(a, rs2[0]) },
        (TermV::Spec(a1), TermV::Spec(a2)) => if a1 == a2 { spec_all_overlap(a1, a2) } else { Some(false) },
        (TermV::Sequence { .. }, TermV::Sequence { .. }) => None,
        (TermV::Struct { .. }, TermV::Struct { .. }) => None,
        (TermV::Enum { .. }, TermV::Enum { .. }) => None,
        (TermV::Univ { .. }, TermV::Univ { .. }) => None,
        (TermV::Morph(..), TermV::Morph(..)) => None,
        (TermV::Func(..), TermV::Func(..)) => None,
        (TermV::Id(x), TermV::Id(y)) => Some(x == y),
        (TermV::Var(x), TermV::Var(y)) => Some(x == y),
        (TermV::Num(x), TermV::Num(y)) => Some(x == y),
        (TermV::Char(x), TermV::Char(y)) => Some(x == y),
        _ => Some(false),
    }
}

/// Pairwise overlap of two sequences, checked from the front, stopping at the first failure.
pub open spec fn spec_all_overlap(s1: Seq<TermV>, s2: Seq<TermV>) -> Option<bool>
    decreases s1, s2,
{
    if s1.len() == 0 || s2.len() == 0 {
        Some(true)
    } else {
        match spec_overlaps(s1[0], s2[0]) {
            None => None,
            Some(false) => Some(false),
            Some(true) => spec_all_overlap(s1.subrange(1, s1.len() as int), s2.subrange(1, s2.len() as int)),
        }
    }
}

//------------------------------------------------------------------
// Parameter normalization
//------------------------------------------------------------------

/// Parameter normal form: representations of parameters are pulled into the parameters.
pub open spec fn spec_normalize(t: TermV, fuel: nat) -> Option<TermV>
    decreases fuel, 0nat,
{
    if fuel == 0 {
        None
    } else {
        let f = (fuel - 1) as nat;
        match t {
            TermV::Ladder(rungs) => {
                if rungs.len() == 0 {
                    Some(spec_unit())
                } else if rungs.len() == 1 {
                    spec_normalize(rungs[0], f)
                } else {
                    spec_norm_loop(
                        rungs.subrange(0, rungs.len() - 1),
                        spec_strip(rungs[rungs.len() - 1]),
                        Seq::empty(),
                        f,
                    )
                }
            },
            TermV::Spec(params) => match spec_normalize_seq(params, f) {
                Some(ps) => Some(TermV::Spec(ps)),
                None => None,
            },
            TermV::Sequence { repr, item } => match (spec_normalize_opt(repr, f), spec_normalize(*item, f)) {
                (Some(r), Some(i)) => Some(TermV::Sequence { repr: r, item: Box::new(i) }),
                _ => None,
            },
            TermV::Struct { repr, members } => match (spec_normalize_opt(repr, f), spec_normalize_fields(members, f)) {
                (Some(r), Some(m)) => Some(TermV::Struct { repr: r, members: m }),
                _ => None,
            },
            TermV::Enum { repr, variants } => match (spec_normalize_opt(repr, f), spec_normalize_fields(variants, f)) {
                (Some(r), Some(m)) => Some(TermV::Enum { repr: r, variants: m }),
                _ => None,
            },
            _ => Some(t),
        }
    }
}

pub open spec fn spec_normalize_opt(o: Option<Box<TermV>>, fuel: nat) -> Option<Option<Box<TermV>>>
    decreases fuel, 1nat,
{
    match o {
        Some(b) => match spec_normalize(*b, fuel) {
            Some(n) => Some(Some(Box::new(n))),
            None => None,
        },
        None => Some(None),
    }
}

pub open spec fn spec_normalize_seq(s: Seq<TermV>, fuel: nat) -> Option<Seq<TermV>>
    decreases fuel, s.len() + 1,
{
    if s.len() == 0 {
        Some(Seq::empty())
    } else {
        match (spec_normalize_seq(s.subrange(0, s.len() - 1), fuel), spec_normalize(s[s.len() - 1], fuel)) {
            (Some(p), Some(x)) => Some(p.push(x)),
            _ => None,
        }
    }
}

pub open spec fn spec_normalize_fields(s: Seq<FieldV>, fuel: nat) -> Option<Seq<FieldV>>
    decreases fuel, s.len() + 1,
{
    if s.len() == 0 {
        Some(Seq::empty())
    } else {
        match (spec_normalize_fields(s.subrange(0, s.len() - 1), fuel), spec_normalize(s[s.len() - 1].ty, fuel)) {
            (Some(p), Some(x)) => Some(p.push(FieldV { symbol: s[s.len() - 1].symbol, ty: x })),
            _ => None,
        }
    }
}

/// `[a1 ~ b1, a2 ~ b2, ...]`, each normalized.
pub open spec fn spec_normalize_pairs(a: Seq<TermV>, b: Seq<TermV>, fuel: nat) -> Option<Seq<TermV>>
    decreases fuel, a.len() + 1,
{
    if a.len() == 0 || b.len() == 0 {
        Some(Seq::empty())
    } else {
        let n = if a.len() < b.len() { a.len() } else { b.len() };
        match (spec_normalize_pairs(a.subrange(0, n - 1), b.subrange(0, n - 1), fuel), spec_normalize(ladder2(a[n - 1], b[n - 1]), fuel)) {
            (Some(p), Some(x)) => Some(p.push(x)),
            _ => None,
        }
    }
}

/// The rungs of a ladder are merged pairwise from the bottom: `rest` are the rungs not
/// yet visited, `r2` the current lowest merged rung, `acc` the finished rungs below it.
pub open spec fn spec_norm_loop(rest: Seq<TermV>, r2: TermV, acc: Seq<TermV>, fuel: nat) -> Option<TermV>
    decreases fuel, rest.len() + 2,
{
    if rest.len() == 0 {
        if acc.len() > 0 { Some(TermV::Ladder(seq![r2] + acc)) } else { Some(r2) }
    } else {
        let r1 = spec_strip(rest[rest.len() - 1]);
        match spec_norm_step(r1, r2, fuel) {
            None => None,
            Some((pushed, r2n)) => spec_norm_loop(
                rest.subrange(0, rest.len() - 1),
                r2n,
                match pushed {
                    Some(p) => seq![p] + acc,
                    None => acc,
                },
                fuel,
            ),
        }
    }
}

/// The first field of `s` whose symbol is `sym`.
pub open spec fn spec_find_field(s: Seq<FieldV>, sym: Seq<char>) -> Option<int>
    decreases s.len(),
{
    if s.len() == 0 {
        None
    } else {
        match spec_find_field(s.subrange(0, s.len() - 1), sym) {
            Some(i) => Some(i),
            None => if s[s.len() - 1].symbol == sym { Some(s.len() - 1) } else { None },
        }
    }
}

/// Merges the fields of two adjacent struct (or enum) rungs: for each field of the lower
/// rung, the upper field of the same name, as a normalized ladder.  `.1` tells whether
/// some lower field has no upper counterpart.
pub open spec fn spec_condense_fields(m1: Seq<FieldV>, m2: Seq<FieldV>, fuel: nat) -> Option<(Seq<FieldV>, bool)>
    decreases fuel, m2.len() + 1,
{
    if m2.len() == 0 {
        Some((Seq::empty(), false))
    } else {
        let last = m2[m2.len() - 1];
        match spec_condense_fields(m1, m2.subrange(0, m2.len() - 1), fuel) {
            None => None,
            Some((acc, brk)) => match spec_find_field(m1, last.symbol) {
                Some(k) => match spec_normalize(ladder2(m1[k].ty, last.ty), fuel) {
                    Some(n) => Some((acc.push(FieldV { symbol: m1[k].symbol, ty: n }), brk)),
                    None => None,
                },
                None => Some((acc, true)),
            },
        }
    }
}

/// The representation of two merged struct rungs.
pub open spec fn spec_condense_repr(sr1: Option<Box<TermV>>, sr2: Option<Box<TermV>>, fuel: nat) -> Option<Option<Box<TermV>>>
    decreases fuel, 1nat,
{
    match sr1 {
        Some(a) => match sr2 {
            Some(b) => match spec_normalize(ladder2(*a, *b), fuel) {
                Some(n) => Some(Some(Box::new(n))),
                None => None,
            },
            None => Some(Some(a)),
        },
        None => Some(sr2),
    }
}

/// The merge step of two sequence rungs.
pub open spec fn spec_step_seq_seq(r1: TermV, r2: TermV, fuel: nat) -> Option<(Option<TermV>, TermV)>
    decreases fuel, 2nat,
{
    match (r1, r2) {
        (TermV::Sequence { repr: sr1, item: i1 }, TermV::Sequence { repr: sr2, item: i2 }) => {
            let repr: Option<Option<Box<TermV>>> = if sr1 is Some || sr2 is Some {
                let s1 = opt_or_unit(sr1);
                let s2 = opt_or_unit(sr2);
                if s1 == s2 {
                    Some(Some(Box::new(s1)))
                } else if s1 == spec_unit() {
                    Some(Some(Box::new(s2)))
                } else {
                    match spec_normalize(ladder2(s1, s2), fuel) {
                        Some(n) => Some(Some(Box::new(n))),
                        None => None,
                    }
                }
            } else {
                Some(None)
            };
            let item: Option<TermV> = if *i1 == *i2 { Some(*i1) } else { spec_normalize(ladder2(*i1, *i2), fuel) };
            match (repr, item) {
                (Some(r), Some(i)) => Some((None, TermV::Sequence { repr: r, item: Box::new(i) })),
                _ => None,
            }
        },
        _ => None,
    }
}

/// The merge step of a sequence rung above an application: `<Seq T>` above `<S R T'>`.
pub open spec fn spec_step_seq_spec(r1: TermV, r2: TermV, fuel: nat) -> Option<(Option<TermV>, TermV)>
    decreases fuel, 2nat,
{
    match (r1, r2) {
        (TermV::Sequence { repr, item }, TermV::Spec(args)) => {
            if args.len() == 2 {
                match spec_overlaps(*item, args[1]) {
                    None => None,
                    Some(true) => match (
                        spec_normalize(ladder2(opt_or_unit(repr), args[0]), fuel),
                        spec_normalize(ladder2(*item, args[1]), fuel),
                    ) {
                        (Some(a), Some(b)) => Some((None, TermV::Sequence { repr: Some(Box::new(a)), item: Box::new(b) })),
                        _ => None,
                    },
                    Some(false) => Some((Some(r2), r1)),
                }
            } else {
                Some((Some(r2), r1))
            }
        },
        _ => None,
    }
}

/// The number of fields of a struct or enum term.
pub open spec fn field_count(t: TermV) -> nat {
    match t {
        TermV::Struct { members, .. } => members.len(),
        TermV::Enum { variants, .. } => variants.len(),
        _ => 0,
    }
}

/// The merge step of two struct rungs or of two enum rungs.
pub open spec fn spec_step_record(r1: TermV, r2: TermV, fuel: nat) -> Option<(Option<TermV>, TermV)>
    decreases fuel, field_count(r2) + 2,
{
    match (r1, r2) {
        (TermV::Struct { repr: sr1, members: m1 }, TermV::Struct { repr: sr2, members: m2 }) => {
            match (spec_condense_repr(sr1, sr2, fuel), spec_condense_fields(m1, m2, fuel)) {
                (Some(cr), Some((cm, brk))) => if brk {
                    Some((Some(r2), r1))
                } else {
                    Some((None, TermV::Struct { repr: cr, members: cm }))
                },
                _ => None,
            }
        },
        (TermV::Enum { repr: sr1, variants: m1 }, TermV::Enum { repr: sr2, variants: m2 }) => {
            match (spec_condense_repr(sr1, sr2, fuel), spec_condense_fields(m1, m2, fuel)) {
                (Some(cr), Some((cm, brk))) => if brk {
                    Some((Some(r2), r1))
                } else {
                    Some((None, TermV::Enum { repr: cr, variants: cm }))
                },
                _ => None,
            }
        },
        _ => None,
    }
}

/// The number of parameters of an application term.
pub open spec fn param_count(t: TermV) -> nat {
    match t {
        TermV::Spec(a) => a.len(),
        _ => 0,
    }
}

/// The merge step of two applications: merged parameterwise where the first parameters
/// are subtypes of each other.
pub open spec fn spec_step_spec_spec(r1: TermV, r2: TermV, fuel: nat) -> Option<(Option<TermV>, TermV)>
    decreases fuel, param_count(r1) + 2,
{
    match (r1, r2) {
        (TermV::Spec(a1), TermV::Spec(a2)) => {
            if a1.len() == a2.len() {
                if a1.len() == 0 {
                    None
                } else {
                    match spec_subtype_unify(a1[0], a2[0], fuel) {
                        None => None,
                        Some(Ok(_)) => match spec_normalize_pairs(a1, a2, fuel) {
                            Some(ps) => Some((None, TermV::Spec(ps))),
                            None => None,
                        },
                        Some(Err(_)) => Some((Some(r2), r1)),
                    }
                }
            } else {
                Some((Some(r2), r1))
            }
        },
        _ => None,
    }
}

/// The merge step where one of the two rungs is itself a ladder.
pub open spec fn spec_step_ladder(r1: TermV, r2: TermV, fuel: nat) -> Option<(Option<TermV>, TermV)>
    decreases fuel, 2nat,
{
    match (r1, r2) {
        (TermV::Ladder(rr1), TermV::Ladder(rr2)) => {
            if rr1.len() > 0 {
                match spec_normalize(TermV::Ladder(spec_splice(rr1, rr2)), fuel) {
                    Some(n) => Some((None, n)),
                    None => None,
                }
            } else {
                Some((None, r2))
            }
        },
        (a1, TermV::Ladder(rr2)) => {
            let rr = if !spec_is_empty(a1) && !(rr2.len() > 0 && rr2[0] == a1) { seq![a1] + rr2 } else { rr2 };
            match spec_normalize(TermV::Ladder(rr), fuel) {
                Some(n) => Some((None, n)),
                None => None,
            }
        },
        (TermV::Ladder(rr1), a2) => {
            let rr = if !spec_is_empty(a2) && !(rr1.len() > 0 && rr1[rr1.len() - 1] == a2) { rr1.push(a2) } else { rr1 };
            match spec_normalize(TermV::Ladder(rr), fuel) {
                Some(n) => Some((None, n)),
                None => None,
            }
        },
        _ => None,
    }
}

/// The merge step of two rungs that are neither ladders nor merged componentwise.
pub open spec fn spec_step_plain(r1: TermV, r2: TermV) -> Option<(Option<TermV>, TermV)> {
    if spec_is_empty(r1) {
        Some((None, r2))
    } else if r1 == r2 {
        Some((None, r2))
    } else if spec_is_empty(r2) {
        Some((None, r1))
    } else {
        Some((Some(r2), r1))
    }
}

/// One merge step of two adjacent rungs `r1` (above) and `r2` (below).  The result is the
/// rung pushed to the finished part (if any) and the new lowest merged rung.
pub open spec fn spec_norm_step(r1: TermV, r2: TermV, fuel0: nat) -> Option<(Option<TermV>, TermV)>
    decreases fuel0, 1nat,
{
    if fuel0 == 0 {
        None
    } else {
        let fuel = (fuel0 - 1) as nat;
        match (r1, r2) {
            (TermV::Sequence { .. }, TermV::Sequence { .. }) => spec_step_seq_seq(r1, r2, fuel),
            (TermV::Sequence { .. }, TermV::Spec(..)) => spec_step_seq_spec(r1, r2, fuel),
            (TermV::Struct { .. }, TermV::Struct { .. }) => spec_step_record(r1, r2, fuel),
            (TermV::Enum { .. }, TermV::Enum { .. }) => spec_step_record(r1, r2, fuel),
            (TermV::Spec(..), TermV::Spec(..)) => spec_step_spec_spec(r1, r2, fuel),
            (TermV::Univ { .. }, TermV::Univ { .. }) => None,
            (TermV::Func(..), TermV::Func(..)) => None,
            (TermV::Morph(..), TermV::Morph(..)) => None,
            (TermV::Ladder(..), _) => spec_step_ladder(r1, r2, fuel),
            (_, TermV::Ladder(..)) => spec_step_ladder(r1, r2, fuel),
            _ => spec_step_plain(r1, r2),
        }
    }
}

//------------------------------------------------------------------
// Substitutions
//------------------------------------------------------------------

/// `t` with `s` applied, then normalized.
#[verifier::opaque]
pub open spec fn spec_norm_applied(t: TermV, s: Map<u64, TermV>, fuel: nat) -> Option<TermV>
    decreases fuel, 1nat,
{
    spec_normalize(spec_apply(t, s), fuel)
}

/// Each term of `s` can be applied and normalized within the budget.
pub open spec fn spec_saturate_ok(s: Map<u64, TermV>, fuel: nat) -> bool
    decreases fuel, 2nat,
{
    forall|k: u64| s.contains_key(k) ==> (#[trigger] spec_norm_applied(s[k], s, fuel)) is Some
}

/// Each term of `s` applied and normalized.
pub open spec fn spec_saturated_map(s: Map<u64, TermV>, fuel: nat) -> Map<u64, TermV>
    decreases fuel, 2nat,
{
    s.map_values(|t: TermV| spec_norm_applied(t, s, fuel).unwrap())
}

/// Every term of the substitution with the substitution applied, then normalized.
#[verifier::opaque]
pub open spec fn spec_saturate(s: Map<u64, TermV>, fuel: nat) -> Option<Map<u64, TermV>>
    decreases fuel, 0nat,
{
    if fuel == 0 {
        None
    } else {
        let f = (fuel - 1) as nat;
        if spec_saturate_ok(s, f) {
            Some(spec_saturated_map(s, f))
        } else {
            None
        }
    }
}

/// Each bound stripped.
pub open spec fn spec_strip_map(m: Map<u64, TermV>) -> Map<u64, TermV> {
    m.map_values(|t: TermV| spec_strip(t))
}

//------------------------------------------------------------------
// Equations
//------------------------------------------------------------------

pub open spec fn with_sigma(cs: CsV, s: Map<u64, TermV>) -> CsV {
    CsV { sigma: s, ..cs }
}

pub open spec fn with_eqs(cs: CsV, e: Seq<Cp2V>) -> CsV {
    CsV { eqs: e, ..cs }
}

pub open spec fn with_traits(cs: CsV, e: Seq<Cp2V>) -> CsV {
    CsV { traits: e, ..cs }
}

pub open spec fn with_upper(cs: CsV, m: Map<u64, TermV>) -> CsV {
    CsV { upper: m, ..cs }
}

pub open spec fn with_lower(cs: CsV, m: Map<u64, TermV>) -> CsV {
    CsV { lower: m, ..cs }
}

/// The pairs `(a[i], b[i])` at addresses `addr ++ [i]`, in reverse order (last index first).
pub open spec fn spec_rev_pairs(addr: Seq<usize>, a: Seq<TermV>, b: Seq<TermV>) -> Seq<Cp2V>
    decreases a.len(),
{
    if a.len() == 0 || a.len() != b.len() {
        Seq::empty()
    } else {
        seq![cp2(addr.push((a.len() - 1) as usize), a[a.len() - 1], b[b.len() - 1])]
            + spec_rev_pairs(addr, a.subrange(0, a.len() - 1), b.subrange(0, b.len() - 1))
    }
}

/// The pairs of field types `(a[i].ty, b[i].ty)` at addresses `addr ++ [i]`, in order.
pub open spec fn spec_field_pairs(addr: Seq<usize>, a: Seq<FieldV>, b: Seq<FieldV>) -> Seq<Cp2V>
    decreases a.len(),
{
    if a.len() == 0 || a.len() != b.len() {
        Seq::empty()
    } else {
        spec_field_pairs(addr, a.subrange(0, a.len() - 1), b.subrange(0, b.len() - 1)).push(
            cp2(addr.push((a.len() - 1) as usize), a[a.len() - 1].ty, b[b.len() - 1].ty),
        )
    }
}

/// Binds a variable to a term (occurs check included), as equations and trait checks do.
pub open spec fn spec_bind(cs: CsV, addr: Seq<usize>, v: u64, t: TermV, fuel: nat) -> Option<(CsV, Result<(), ErrV>)>
    decreases fuel, 1nat,
{
    if !spec_contains_var(t, v as int) {
        match spec_saturate(cs.sigma.insert(v, t), fuel) {
            Some(s) => Some((with_sigma(cs, s), Ok(()))),
            None => None,
        }
    } else if t == TermV::Var(v) {
        Some((cs, Ok(())))
    } else {
        Some((cs, Err(err(addr, TermV::Var(v), t))))
    }
}

/// One equation: variables are bound, atoms compared, compound terms split into new equations.
pub open spec fn spec_eval_eq(cs: CsV, p: Cp2V, fuel: nat) -> Option<(CsV, Result<(), ErrV>)>
    decreases fuel, 0nat,
{
    if fuel == 0 {
        None
    } else {
        let f = (fuel - 1) as nat;
        let e = err(p.addr, p.lhs, p.rhs);
        match (p.lhs, p.rhs) {
            (TermV::Var(v), t) => spec_bind(cs, p.addr, v, t, f),
            (t, TermV::Var(v)) => spec_bind(cs, p.addr, v, t, f),
            (TermV::Id(a), TermV::Id(b)) => Some((cs, if a == b { Ok(()) } else { Err(e) })),
            (TermV::Num(a), TermV::Num(b)) => Some((cs, if a == b { Ok(()) } else { Err(e) })),
            (TermV::Char(a), TermV::Char(b)) => Some((cs, if a == b { Ok(()) } else { Err(e) })),
            (TermV::Ladder(a1), TermV::Ladder(a2)) => if a1.len() == a2.len() {
                Some((with_eqs(cs, cs.eqs + spec_rev_pairs(p.addr, a1, a2)), Ok(())))
            } else {
                Some((cs, Err(e)))
            },
            (TermV::Spec(a1), TermV::Spec(a2)) => if a1.len() == a2.len() {
                Some((with_eqs(cs, cs.eqs + spec_rev_pairs(p.addr, a1, a2)), Ok(())))
            } else {
                Some((cs, Err(e)))
            },
            (TermV::Sequence { repr: lr, item: li }, TermV::Sequence { repr: rr, item: ri }) => {
                let a0 = p.addr.push(0);
                let a1 = p.addr.push(1);
                match rr {
                    Some(rrb) => match lr {
                        Some(lrb) => match spec_eval_eq(cs, cp2(a0, *lrb, *rrb), f) {
                            None => None,
                            Some((cs2, Err(e2))) => Some((cs2, Err(e2))),
                            Some((cs2, Ok(()))) => Some((with_eqs(cs2, cs2.eqs.push(cp2(a1, *li, *ri))), Ok(()))),
                        },
                        None => Some((cs, Err(err(a0, p.lhs, p.rhs)))),
                    },
                    None => Some((with_eqs(cs, cs.eqs.push(cp2(a1, *li, *ri))), Ok(()))),
                }
            },
            (TermV::Struct { repr: lr, members: lm }, TermV::Struct { repr: rr, members: rm }) =>
                spec_eq_fields(cs, p, lr, rr, lm, rm, f),
            (TermV::Enum { repr: lr, variants: lm }, TermV::Enum { repr: rr, variants: rm }) =>
                spec_eq_fields(cs, p, lr, rr, lm, rm, f),
            _ => Some((cs, Err(e))),
        }
    }
}

/// Equation between two structs (or two enums): representations as subtypes, fields as equations.
pub open spec fn spec_eq_fields(
    cs: CsV,
    p: Cp2V,
    lr: Option<Box<TermV>>,
    rr: Option<Box<TermV>>,
    lm: Seq<FieldV>,
    rm: Seq<FieldV>,
    fuel: nat,
) -> Option<(CsV, Result<(), ErrV>)>
    decreases fuel, 2nat,
{
    match spec_sub_repr(cs, p, lr, rr, fuel) {
        None => None,
        Some((cs2, Err(e2))) => Some((cs2, Err(e2))),
        Some((cs2, Ok(()))) => if lm.len() == rm.len() {
            Some((with_eqs(cs2, cs2.eqs + spec_field_pairs(p.addr, lm, rm)), Ok(())))
        } else {
            Some((cs2, Err(err(p.addr, p.lhs, p.rhs))))
        },
    }
}

//------------------------------------------------------------------
// Subtypes
//------------------------------------------------------------------

/// Adds `new` as upper bound of variable `v`; `.1` is whether that succeeded.
pub open spec fn spec_add_upper(cs: CsV, v: u64, new: TermV, fuel: nat) -> Option<(CsV, bool)>
    decreases fuel, 0nat,
{
    if fuel == 0 {
        None
    } else {
        let f = (fuel - 1) as nat;
        if new == TermV::Var(v) {
            Some((cs, true))
        } else if spec_contains_var(new, v as int) {
            Some((cs, false))
        } else if cs.upper.contains_key(v) {
            match spec_eval_sub(cs, cp2(Seq::empty(), new, cs.upper[v]), f) {
                None => None,
                Some((cs2, Ok(_))) => Some((with_upper(cs2, cs2.upper.insert(v, new)), true)),
                Some((cs2, Err(_))) => Some((cs2, false)),
            }
        } else {
            Some((with_upper(cs, cs.upper.insert(v, new)), true))
        }
    }
}

/// Adds `new` as lower bound of variable `v`; `.1` is whether that succeeded.
pub open spec fn spec_add_lower(cs: CsV, v: u64, new: TermV, fuel: nat) -> Option<(CsV, bool)>
    decreases fuel, 0nat,
{
    if fuel == 0 {
        None
    } else {
        let f = (fuel - 1) as nat;
        if new == TermV::Var(v) {
            Some((cs, true))
        } else if spec_contains_var(new, v as int) {
            Some((cs, false))
        } else if cs.lower.contains_key(v) {
            let lb = cs.lower[v];
            match spec_eval_sub(cs, cp2(Seq::empty(), lb, new), f) {
                None => None,
                Some((cs2, Ok(_))) => Some((with_lower(cs2, cs2.lower.insert(v, new)), true)),
                Some((cs2, Err(_))) => match spec_eval_sub(cs2, cp2(Seq::empty(), new, lb), f) {
                    None => None,
                    Some((cs3, Ok(_))) => Some((cs3, true)),
                    Some((cs3, Err(_))) => Some((cs3, false)),
                },
            }
        } else {
            Some((with_lower(cs, cs.lower.insert(v, new)), true))
        }
    }
}

/// Checks `p.lhs <= p.rhs`; on success the result is the halo: the part of the left
/// ladder above the right one.
pub open spec fn spec_eval_sub(cs: CsV, p: Cp2V, fuel: nat) -> Option<(CsV, Result<TermV, ErrV>)>
    decreases fuel, 0nat,
{
    if fuel == 0 {
        None
    } else {
        let f = (fuel - 1) as nat;
        let e = err(p.addr, p.lhs, p.rhs);
        match (spec_strip(p.lhs), spec_strip(p.rhs)) {
            (TermV::Var(v), t) => match spec_add_upper(cs, v, t, f) {
                None => None,
                Some((cs2, ok)) => Some((cs2, if ok { Ok(spec_unit()) } else { Err(err(p.addr, TermV::Var(v), t)) })),
            },
            (t, TermV::Var(v)) => match spec_add_lower(cs, v, t, f) {
                None => None,
                Some((cs2, ok)) => Some((cs2, if ok { Ok(spec_unit()) } else { Err(err(p.addr, TermV::Var(v), t)) })),
            },
            (TermV::Id(a), TermV::Id(b)) => Some((cs, if a == b { Ok(spec_unit()) } else { Err(e) })),
            (TermV::Num(a), TermV::Num(b)) => Some((cs, if a == b { Ok(spec_unit()) } else { Err(e) })),
            (TermV::Char(a), TermV::Char(b)) => Some((cs, if a == b { Ok(spec_unit()) } else { Err(e) })),
            (TermV::Sequence { repr: lr, item: li }, TermV::Sequence { repr: rr, item: ri }) =>
                spec_sub_seq(cs, p, lr, li, rr, ri, f),
            (TermV::Struct { repr: lr, members: lm }, TermV::Struct { repr: rr, members: rm }) =>
                match spec_sub_repr(cs, p, lr, rr, f) {
                    None => None,
                    Some((cs2, Err(e2))) => Some((cs2, Err(e2))),
                    Some((cs2, Ok(()))) => if lm.len() == rm.len() {
                        match spec_sub_fields(cs2, p.addr, lm, rm, 0, Seq::empty(), f) {
                            None => None,
                            Some((cs3, Err(e3))) => Some((cs3, Err(e3))),
                            Some((cs3, Ok(h))) => Some((cs3, Ok(TermV::Struct { repr: None, members: h }))),
                        }
                    } else {
                        Some((cs2, Err(e)))
                    },
                },
            (TermV::Enum { repr: lr, variants: lm }, TermV::Enum { repr: rr, variants: rm }) =>
                match spec_sub_repr(cs, p, lr, rr, f) {
                    None => None,
                    Some((cs2, Err(e2))) => Some((cs2, Err(e2))),
                    Some((cs2, Ok(()))) => if lm.len() == rm.len() {
                        match spec_sub_fields(cs2, p.addr, lm, rm, 0, Seq::empty(), f) {
                            None => None,
                            Some((cs3, Err(e3))) => Some((cs3, Err(e3))),
                            Some((cs3, Ok(h))) => Some((cs3, Ok(TermV::Enum { repr: None, variants: h }))),
                        }
                    } else {
                        Some((cs2, Err(e)))
                    },
                },
            (TermV::Ladder(a1), TermV::Ladder(a2)) =>
                spec_sub_ladder(cs, p, a1, a2, a1.len(), a2.len(), Seq::empty(), f),
            (TermV::Sequence { repr, item }, TermV::Spec(args)) =>
                spec_sub_seq_spec(cs, p, repr, *item, args, f),
            (t, TermV::Ladder(a1)) => Some((cs, Err(err(p.addr, t, TermV::Ladder(a1))))),
            (TermV::Ladder(a1), t) => {
                if a1.len() > 0 {
                    let n = (a1.len() - 1) as int;
                    let rest = a1.subrange(0, n);
                    match spec_eval_sub(cs, cp2(p.addr.push(n as usize), a1[n], t), f) {
                        None => None,
                        Some((cs2, Err(_))) => Some((cs2, Err(err(p.addr, TermV::Ladder(rest), t)))),
                        Some((cs2, Ok(halo))) => if n == 0 {
                            Some((cs2, Ok(halo)))
                        } else {
                            match spec_normalize(TermV::Ladder(rest.push(halo)), f) {
                                Some(nh) => Some((cs2, Ok(nh))),
                                None => None,
                            }
                        },
                    }
                } else if t == spec_unit() {
                    Some((cs, Ok(spec_unit())))
                } else {
                    Some((cs, Err(err(p.addr, spec_unit(), t))))
                }
            },
            (TermV::Spec(a1), TermV::Spec(a2)) => if a1.len() == a2.len() {
                spec_sub_args(cs, p, a1, a2, 0, Seq::empty(), 0, 0, f)
            } else {
                Some((cs, Err(e)))
            },
            _ => Some((cs, Err(e))),
        }
    }
}

/// `seq <= seq`: representation, then item.
pub open spec fn spec_sub_seq(
    cs: CsV,
    p: Cp2V,
    lr: Option<Box<TermV>>,
    li: Box<TermV>,
    rr: Option<Box<TermV>>,
    ri: Box<TermV>,
    fuel: nat,
) -> Option<(CsV, Result<TermV, ErrV>)>
    decreases fuel, 1nat,
{
    let a0 = p.addr.push(0);
    let a1 = p.addr.push(1);
    let step: Option<(CsV, Result<Option<Box<TermV>>, ErrV>)> = match rr {
        Some(rrb) => match lr {
            Some(lrb) => match spec_eval_sub(cs, cp2(a0, *lrb, *rrb), fuel) {
                None => None,
                Some((cs2, Err(e2))) => Some((cs2, Err(e2))),
                Some((cs2, Ok(psi))) => Some((cs2, Ok(Some(Box::new(psi))))),
            },
            None => Some((cs, Err(err(a0, p.lhs, p.rhs)))),
        },
        None => Some((cs, Ok(None))),
    };
    match step {
        None => None,
        Some((cs2, Err(e2))) => Some((cs2, Err(e2))),
        Some((cs2, Ok(psi_repr))) => match spec_eval_sub(cs2, cp2(a1, *li, *ri), fuel) {
            None => None,
            Some((cs3, Ok(psi_item))) => Some((cs3, Ok(spec_strip(TermV::Sequence { repr: psi_repr, item: Box::new(psi_item) })))),
            Some((cs3, Err(e3))) => Some((cs3, Err(err(a1, e3.t1, e3.t2)))),
        },
    }
}

/// The representations of two structs (or enums) as subtypes.
pub open spec fn spec_sub_repr(
    cs: CsV,
    p: Cp2V,
    lr: Option<Box<TermV>>,
    rr: Option<Box<TermV>>,
    fuel: nat,
) -> Option<(CsV, Result<(), ErrV>)>
    decreases fuel, 1nat,
{
    match rr {
        Some(rrb) => match lr {
            Some(lrb) => match spec_eval_sub(cs, cp2(p.addr, *lrb, *rrb), fuel) {
                None => None,
                Some((cs2, Err(e2))) => Some((cs2, Err(e2))),
                Some((cs2, Ok(_))) => Some((cs2, Ok(()))),
            },
            None => Some((cs, Err(err(p.addr, p.lhs, p.rhs)))),
        },
        None => Some((cs, Ok(()))),
    }
}

/// The fields of two structs (or enums) as subtypes, from index `i` on; `halo` holds
/// the halos of the fields before `i`.
pub open spec fn spec_sub_fields(
    cs: CsV,
    addr: Seq<usize>,
    lm: Seq<FieldV>,
    rm: Seq<FieldV>,
    i: nat,
    halo: Seq<FieldV>,
    fuel: nat,
) -> Option<(CsV, Result<Seq<FieldV>, ErrV>)>
    decreases fuel, lm.len() - i + 1,
{
    if i >= lm.len() || i >= rm.len() {
        Some((cs, Ok(halo)))
    } else {
        match spec_eval_sub(cs, cp2(addr.push(i as usize), lm[i as int].ty, rm[i as int].ty), fuel) {
            None => None,
            Some((cs2, Err(e2))) => Some((cs2, Err(e2))),
            Some((cs2, Ok(psi))) => spec_sub_fields(
                cs2,
                addr,
                lm,
                rm,
                i + 1,
                halo.push(FieldV { symbol: lm[i as int].symbol, ty: psi }),
                fuel,
            ),
        }
    }
}

/// Two ladders, compared rung by rung from the bottom.  `n1` and `n2` are the numbers of
/// rungs not yet compared; `halo` the halos found so far (topmost first).
pub open spec fn spec_sub_ladder(
    cs: CsV,
    p: Cp2V,
    a1: Seq<TermV>,
    a2: Seq<TermV>,
    n1: nat,
    n2: nat,
    halo: Seq<TermV>,
    fuel: nat,
) -> Option<(CsV, Result<TermV, ErrV>)>
    decreases fuel, n2 + 1,
{
    if n2 == 0 || n2 > a2.len() || n1 > a1.len() {
        Some((cs, Ok(spec_strip(TermV::Ladder(a1.subrange(0, n1 as int) + halo)))))
    } else {
        let rhs = a2[n2 - 1];
        if n1 == 0 {
            Some((cs, Err(err(Seq::empty(), p.lhs, p.rhs))))
        } else {
            let i = (n1 - 1) as nat;
            let lhs = a1[i as int];
            let addr = p.addr.push(i as usize);
            match rhs {
                TermV::Var(v) => match spec_add_upper(cs, v, lhs, fuel) {
                    None => None,
                    Some((cs2, false)) => Some((cs2, Err(err(addr, lhs, rhs)))),
                    Some((cs2, true)) => {
                        let ul: Seq<TermV> = if n2 >= 2 { seq![lhs] } else { a1.subrange(0, n1 as int) };
                        let n1p: nat = if n2 >= 2 { i } else { 0 };
                        let n2p: nat = if n2 >= 2 { (n2 - 2) as nat } else { 0 };
                        match spec_add_upper(cs2, v, TermV::Ladder(ul), fuel) {
                            None => None,
                            Some((cs3, false)) => Some((cs3, Err(err(addr, lhs, rhs)))),
                            Some((cs3, true)) => spec_sub_ladder(cs3, p, a1, a2, n1p, n2p, halo, fuel),
                        }
                    },
                },
                _ => match spec_eval_sub(cs, cp2(addr, lhs, rhs), fuel) {
                    None => None,
                    Some((cs2, Err(_))) => Some((cs2, Err(err(addr, lhs, rhs)))),
                    Some((cs2, Ok(psi))) => spec_sub_ladder(cs2, p, a1, a2, i, (n2 - 1) as nat, seq![psi] + halo, fuel),
                },
            }
        }
    }
}

/// `seq <= <S T>`: the sequence's representation against `S`, its item against `T`.
pub open spec fn spec_sub_seq_spec(
    cs: CsV,
    p: Cp2V,
    repr: Option<Box<TermV>>,
    item: TermV,
    args: Seq<TermV>,
    fuel: nat,
) -> Option<(CsV, Result<TermV, ErrV>)>
    decreases fuel, 1nat,
{
    let e = err(p.addr, p.lhs, p.rhs);
    if args.len() > 1 {
        match repr {
            Some(sr) => match spec_eval_sub(cs, cp2(p.addr, *sr, args[0]), fuel) {
                None => None,
                Some((cs2, Err(e2))) => Some((cs2, Err(e2))),
                Some((cs2, Ok(rpsi))) => match spec_normalize(ladder2(rpsi, spec_interface(args[0])), fuel) {
                    None => None,
                    Some(rpsi2) => match spec_eval_sub(cs2, cp2(p.addr.push(1), item, args[1]), fuel) {
                        None => None,
                        Some((cs3, Err(e3))) => Some((cs3, Err(e3))),
                        Some((cs3, Ok(ipsi))) => match spec_normalize(ladder2(ipsi, spec_interface(args[1])), fuel) {
                            None => None,
                            Some(ipsi2) => Some((cs3, Ok(TermV::Sequence {
                                repr: if spec_is_empty(rpsi2) { None } else { Some(Box::new(rpsi2)) },
                                item: Box::new(spec_apply(ipsi2, cs3.sigma)),
                            }))),
                        },
                    },
                },
            },
            None => Some((cs, Err(e))),
        }
    } else {
        Some((cs, Err(e)))
    }
}

/// When an argument with a non-empty halo is found, the earlier arguments' halos get
/// their interface types attached: indices `nc .. i` are updated.
pub open spec fn spec_fix_halos(
    halo: Seq<TermV>,
    a2: Seq<TermV>,
    nc: nat,
    i: nat,
    s: Map<u64, TermV>,
    fuel: nat,
) -> Option<Seq<TermV>>
    decreases fuel, i - nc + 1,
{
    if nc >= i || nc >= halo.len() || nc >= a2.len() {
        Some(halo)
    } else {
        match spec_normalize(ladder2(halo[nc as int], spec_interface(a2[nc as int])), fuel) {
            None => None,
            Some(n) => spec_fix_halos(halo.update(nc as int, spec_apply(n, s)), a2, nc + 1, i, s, fuel),
        }
    }
}

/// Two applications, argument by argument from index `i` on.
pub open spec fn spec_sub_args(
    cs: CsV,
    p: Cp2V,
    a1: Seq<TermV>,
    a2: Seq<TermV>,
    i: nat,
    halo: Seq<TermV>,
    n_halos: nat,
    nc: nat,
    fuel: nat,
) -> Option<(CsV, Result<TermV, ErrV>)>
    decreases fuel, 2 * a1.len() - i + 2,
{
    if i >= a1.len() || i >= a2.len() {
        Some((cs, Ok(if n_halos > 0 { TermV::Spec(halo) } else { spec_unit() })))
    } else {
        let x = spec_strip(a1[i as int]);
        let y = spec_strip(a2[i as int]);
        match spec_eval_sub(cs, cp2(p.addr.push(i as usize), x, y), fuel) {
            None => None,
            Some((cs2, Err(e2))) => Some((cs2, Err(e2))),
            Some((cs2, Ok(h))) => {
                if spec_is_empty(h) {
                    let y2 = spec_strip(spec_apply(y, cs2.sigma));
                    spec_sub_args(cs2, p, a1, a2, i + 1, halo.push(spec_interface(y2)), n_halos, nc, fuel)
                } else {
                    let fixed_halo = if nc < i { spec_fix_halos(halo, a2, nc, i, cs2.sigma, fuel) } else { Some(halo) };
                    match fixed_halo {
                        None => None,
                        Some(fixed) => spec_sub_args(
                            cs2,
                            p,
                            a1,
                            a2,
                            i + 1,
                            fixed.push(h),
                            n_halos + 1,
                            if nc < i { i } else { nc },
                            fuel,
                        ),
                    }
                }
            },
        }
    }
}

//------------------------------------------------------------------
// Traits
//------------------------------------------------------------------

/// Checks that `p.lhs` has the trait `p.rhs`: some rung of a ladder has it, otherwise
/// like an equation whose compound parts become new trait checks.
pub open spec fn spec_eval_trait(cs: CsV, p: Cp2V, fuel: nat) -> Option<(CsV, Result<(), ErrV>)>
    decreases fuel, 0nat,
{
    if fuel == 0 {
        None
    } else {
        let f = (fuel - 1) as nat;
        let e = err(p.addr, p.lhs, p.rhs);
        match (spec_strip(p.lhs), spec_strip(p.rhs)) {
            (TermV::Ladder(r1), tau) => spec_trait_rungs(cs, p, r1, tau, 0, f),
            (TermV::Var(v), t) => spec_bind(cs, p.addr, v, t, f),
            (t, TermV::Var(v)) => spec_bind(cs, p.addr, v, t, f),
            (TermV::Id(a), TermV::Id(b)) => Some((cs, if a == b { Ok(()) } else { Err(e) })),
            (TermV::Num(a), TermV::Num(b)) => Some((cs, if a == b { Ok(()) } else { Err(e) })),
            (TermV::Char(a), TermV::Char(b)) => Some((cs, if a == b { Ok(()) } else { Err(e) })),
            (TermV::Spec(a1), TermV::Spec(a2)) => if a1.len() == a2.len() {
                Some((with_traits(cs, cs.traits + spec_rev_pairs(p.addr, a1, a2)), Ok(())))
            } else {
                Some((cs, Err(e)))
            },
            (TermV::Sequence { repr: lsr, item: lit }, TermV::Sequence { repr: rsr, item: rit }) =>
                match spec_trait_repr(cs, p.addr, lsr, rsr) {
                    (cs2, Err(e2)) => Some((cs2, Err(e2))),
                    (cs2, Ok(())) => Some((with_traits(cs2, cs2.traits.push(cp2(p.addr.push(1), *lit, *rit))), Ok(()))),
                },
            (TermV::Struct { repr: lsr, members: lm }, TermV::Struct { repr: rsr, members: rm }) =>
                match spec_trait_repr(cs, p.addr, lsr, rsr) {
                    (cs2, Err(e2)) => Some((cs2, Err(e2))),
                    (cs2, Ok(())) => Some(spec_trait_fields(cs2, p.addr, lm, rm, 0)),
                },
            (TermV::Enum { repr: lsr, variants: lm }, TermV::Enum { repr: rsr, variants: rm }) =>
                match spec_trait_repr(cs, p.addr, lsr, rsr) {
                    (cs2, Err(e2)) => Some((cs2, Err(e2))),
                    (cs2, Ok(())) => Some(spec_trait_fields(cs2, p.addr, lm, rm, 0)),
                },
            _ => Some((cs, Err(e))),
        }
    }
}

/// Some rung of a ladder, from index `i` on, has the trait.
pub open spec fn spec_trait_rungs(cs: CsV, p: Cp2V, r1: Seq<TermV>, tau: TermV, i: nat, fuel: nat) -> Option<(CsV, Result<(), ErrV>)>
    decreases fuel, r1.len() - i + 1,
{
    if i >= r1.len() {
        Some((cs, Err(err(p.addr, p.lhs, p.rhs))))
    } else {
        match spec_eval_trait(cs, cp2(p.addr.push(i as usize), r1[i as int], tau), fuel) {
            None => None,
            Some((cs2, Ok(()))) => Some((cs2, Ok(()))),
            Some((cs2, Err(_))) => spec_trait_rungs(cs2, p, r1, tau, i + 1, fuel),
        }
    }
}

/// The representations of two compound terms as a new trait check.
pub open spec fn spec_trait_repr(cs: CsV, addr: Seq<usize>, lsr: Option<Box<TermV>>, rsr: Option<Box<TermV>>) -> (CsV, Result<(), ErrV>) {
    match rsr {
        Some(r) => match lsr {
            Some(l) => (with_traits(cs, cs.traits.push(cp2(addr.push(0), *l, *r))), Ok(())),
            None => (cs, Err(err(addr.push(0), spec_unit(), *r))),
        },
        None => (cs, Ok(())),
    }
}

/// For each field of the right side from index `i` on, the left field of the same name
/// must have its trait.
pub open spec fn spec_trait_fields(cs: CsV, addr: Seq<usize>, lm: Seq<FieldV>, rm: Seq<FieldV>, i: nat) -> (CsV, Result<(), ErrV>)
    decreases rm.len() - i,
{
    if i >= rm.len() {
        (cs, Ok(()))
    } else {
        match spec_find_field(lm, rm[i as int].symbol) {
            Some(k) => spec_trait_fields(
                with_traits(cs, cs.traits.push(cp2(addr.push(0), lm[k].ty, rm[i as int].ty))),
                addr,
                lm,
                rm,
                i + 1,
            ),
            None => (cs, Err(err(addr.push(i as usize), spec_unit(), rm[i as int].ty))),
        }
    }
}

//------------------------------------------------------------------
// Solving
//------------------------------------------------------------------

pub open spec fn apply_cp2(p: Cp2V, s: Map<u64, TermV>) -> Cp2V {
    cp2(p.addr, spec_apply(p.lhs, s), spec_apply(p.rhs, s))
}

/// Solves the equations, last one first, until none is left.
pub open spec fn spec_eq_loop(cs: CsV, fuel: nat) -> Option<(CsV, Result<(), ErrV>)>
    decreases fuel, 0nat,
{
    if fuel == 0 {
        None
    } else {
        let f = (fuel - 1) as nat;
        if cs.eqs.len() == 0 {
            Some((cs, Ok(())))
        } else {
            let p = cs.eqs[cs.eqs.len() - 1];
            let cs1 = with_eqs(cs, cs.eqs.subrange(0, cs.eqs.len() - 1));
            match spec_eval_eq(cs1, apply_cp2(p, cs1.sigma), f) {
                None => None,
                Some((cs2, Err(e))) => Some((cs2, Err(e))),
                Some((cs2, Ok(()))) => spec_eq_loop(cs2, f),
            }
        }
    }
}

/// Checks the trait constraints, last one first, until none is left.
pub open spec fn spec_trait_loop(cs: CsV, fuel: nat) -> Option<(CsV, Result<(), ErrV>)>
    decreases fuel, 0nat,
{
    if fuel == 0 {
        None
    } else {
        let f = (fuel - 1) as nat;
        if cs.traits.len() == 0 {
            Some((cs, Ok(())))
        } else {
            let p = cs.traits[cs.traits.len() - 1];
            let cs1 = with_traits(cs, cs.traits.subrange(0, cs.traits.len() - 1));
            match spec_eval_trait(cs1, apply_cp2(p, cs1.sigma), f) {
                None => None,
                Some((cs2, Err(e))) => Some((cs2, Err(e))),
                Some((cs2, Ok(()))) => spec_trait_loop(cs2, f),
            }
        }
    }
}

/// Checks the subtype constraints `subs[i..]` in order; `halos` collects the stripped halos.
pub open spec fn spec_sub_loop(cs: CsV, subs: Seq<Cp2V>, i: nat, halos: Seq<TermV>, fuel: nat) -> Option<(CsV, Result<Seq<TermV>, ErrV>)>
    decreases fuel, subs.len() - i + 1,
{
    if i >= subs.len() {
        Some((cs, Ok(halos)))
    } else {
        match spec_eval_sub(cs, apply_cp2(subs[i as int], cs.sigma), fuel) {
            None => None,
            Some((cs2, Err(e))) => Some((cs2, Err(e))),
            Some((cs2, Ok(h))) => spec_sub_loop(cs2, subs, i + 1, halos.push(spec_strip(h)), fuel),
        }
    }
}

/// Solves a constraint system: equations, then subtypes (whose variable bounds join the
/// substitution), then the halos of the subtypes, then traits.
pub open spec fn spec_solve(cs: CsV, fuel: nat) -> Option<Result<(Seq<TermV>, Map<u64, TermV>), ErrV>>
    decreases fuel, 0nat,
{
    if fuel == 0 {
        None
    } else {
        let f = (fuel - 1) as nat;
        match spec_eq_loop(cs, f) {
            None => None,
            Some((_, Err(e))) => Some(Err(e)),
            Some((cs1, Ok(()))) => match spec_sub_loop(cs1, cs1.subs, 0, Seq::empty(), f) {
                None => None,
                Some((_, Err(e))) => Some(Err(e)),
                Some((cs2, Ok(_))) => {
                    let s = cs2.sigma.union_prefer_right(spec_strip_map(cs2.upper)).union_prefer_right(spec_strip_map(cs2.lower));
                    match spec_saturate(s, f) {
                        None => None,
                        Some(s2) => {
                            let cs3 = with_sigma(cs2, s2);
                            match spec_sub_loop(cs3, cs3.subs, 0, Seq::empty(), f) {
                                None => None,
                                Some((_, Err(e))) => Some(Err(e)),
                                Some((cs4, Ok(halos))) => match spec_trait_loop(cs4, f) {
                                    None => None,
                                    Some((_, Err(e))) => Some(Err(e)),
                                    Some((cs5, Ok(()))) => Some(Ok((halos, cs5.sigma))),
                                },
                            }
                        },
                    }
                },
            },
        }
    }
}

/// A fresh system with the given constraints.
pub open spec fn spec_new_cs(eqs: Seq<Cp2V>, subs: Seq<Cp2V>, traits: Seq<Cp2V>, pars: Seq<Cp2V>) -> CsV {
    CsV { sigma: Map::empty(), upper: Map::empty(), lower: Map::empty(), eqs, subs, traits, pars }
}

/// The most general substitution that makes `a` and `b` equal.
pub open spec fn spec_unify(a: TermV, b: TermV, fuel: nat) -> Option<Result<Map<u64, TermV>, ErrV>>
    decreases fuel, 1nat,
{
    match spec_solve(spec_new_cs(seq![cp2(Seq::empty(), a, b)], Seq::empty(), Seq::empty(), Seq::empty()), fuel) {
        None => None,
        Some(Err(e)) => Some(Err(e)),
        Some(Ok((_, s))) => Some(Ok(s)),
    }
}

/// Subtype unification: the halo of `a <= b` and the substitution.
pub open spec fn spec_subtype_unify(a: TermV, b: TermV, fuel: nat) -> Option<Result<(TermV, Map<u64, TermV>), ErrV>>
    decreases fuel, 1nat,
{
    match spec_solve(spec_new_cs(Seq::empty(), seq![cp2(Seq::empty(), a, b)], Seq::empty(), Seq::empty()), fuel) {
        None => None,
        Some(Err(e)) => Some(Err(e)),
        Some(Ok((halos, s))) => Some(Ok((if halos.len() > 0 { halos[0] } else { spec_unit() }, s))),
    }
}

/// Parallel unification: a system whose only constraint is a parallel pair.
pub open spec fn spec_parallel_unify(a: TermV, b: TermV, fuel: nat) -> Option<Result<(TermV, Map<u64, TermV>), ErrV>>
    decreases fuel, 1nat,
{
    match spec_solve(spec_new_cs(Seq::empty(), Seq::empty(), Seq::empty(), seq![cp2(Seq::empty(), a, b)]), fuel) {
        None => None,
        Some(Err(e)) => Some(Err(e)),
        Some(Ok((halos, s))) => Some(Ok((if halos.len() > 0 { halos[0] } else { spec_unit() }, s))),
    }
}

} // verus!
