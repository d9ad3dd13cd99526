//! Morphism types: the type of a conversion from a source type to a destination type,
//! under a context of variables and bounds.

use vstd::prelude::*;
use crate::term::{TypeTerm, TermV, FieldV, ContextEntry, EntryV, ConstraintPair, PairV, StructMember, EnumVariant, term_view, terms_view, members_view, variants_view, entries_view, pairs_view, lemma_terms_view, lemma_terms_view_push, lemma_terms_view_prepend, lemma_members_view, lemma_members_view_push, lemma_variants_view, lemma_variants_view_push, lemma_pairs_view, lemma_view_variant, lemma_pairs_view_push, copy_entries, copy_pairs, copy_opt};
use crate::term_ops::{spec_unit, spec_strip};
use crate::semantics::{spec_find_field, spec_normalize};
use crate::variable_constraint::spec_normalize_pair;
use crate::substitution::{Substitution, spec_apply, spec_apply_pairs, apply_pairs};
use crate::pnf::{find_member, find_variant, lemma_find_field};
use crate::constraint_system::{STEP_BUDGET};

verus! {

/// The type of a morphism: variables and bounds, source and destination type.
#[derive(PartialEq, Eq, Hash, Debug)]
pub struct MorphismType {
    pub gamma: Vec<ContextEntry>,
    pub bounds: Vec<ConstraintPair>,
    pub src_type: TypeTerm,
    pub dst_type: TypeTerm,
}

/// Model of a morphism type.
pub struct MorphTypeV {
    pub gamma: Seq<EntryV>,
    pub bounds: Seq<PairV>,
    pub src: TermV,
    pub dst: TermV,
}

impl View for MorphismType {
    type V = MorphTypeV;

    open spec fn view(&self) -> MorphTypeV {
        MorphTypeV {
            gamma: entries_view(self.gamma@),
            bounds: pairs_view(self.bounds@),
            src: self.src_type@,
            dst: self.dst_type@,
        }
    }
}

//------------------------------------------------------------------
// Stripping common rungs
//------------------------------------------------------------------

/// Source and destination with the rungs that both share removed, componentwise.
/// `None` only where the nesting exceeds the step budget.
pub open spec fn spec_strip_common(a: TermV, b: TermV, fuel: nat) -> Option<(TermV, TermV)>
    decreases fuel, 0nat,
{
    if fuel == 0 {
        None
    } else {
        let f = (fuel - 1) as nat;
        match (spec_strip(a), spec_strip(b)) {
            (TermV::Ladder(l), TermV::Ladder(r)) => spec_strip_common_ladder(l, r, 0, (spec_unit(), spec_unit()), f),
            (TermV::Spec(l), TermV::Spec(r)) => match spec_strip_common_args(l, r, f) {
                Some((rl, rr)) => Some((TermV::Spec(rl), TermV::Spec(rr))),
                None => None,
            },
            (TermV::Sequence { repr: lr, item: li }, TermV::Sequence { repr: rr, item: ri }) =>
                match spec_strip_common(*li, *ri, f) {
                    Some((x, y)) => Some((TermV::Sequence { repr: lr, item: Box::new(x) }, TermV::Sequence { repr: rr, item: Box::new(y) })),
                    None => None,
                },
            (TermV::Struct { repr: lr, members: lm }, TermV::Struct { repr: rr, members: rm }) =>
                match spec_strip_common_fields(lm, rm, f) {
                    None => None,
                    Some((true, ml, mr)) => Some((TermV::Struct { repr: lr, members: ml }, TermV::Struct { repr: rr, members: mr })),
                    Some((false, _, _)) => Some((spec_strip(a), spec_strip(b))),
                },
            (TermV::Enum { repr: lr, variants: lm }, TermV::Enum { repr: rr, variants: rm }) =>
                match spec_strip_common_fields(lm, rm, f) {
                    None => None,
                    Some((true, ml, mr)) => Some((TermV::Enum { repr: lr, variants: ml }, TermV::Enum { repr: rr, variants: mr })),
                    Some((false, _, _)) => Some((spec_strip(a), spec_strip(b))),
                },
            (x, y) => Some((x, y)),
        }
    }
}

/// Two ladders from rung `i` on: equal rungs are dropped; at the first pair of different
/// rungs, that pair is stripped and the rest of both ladders kept.  Where all rungs
/// compared are equal, the result is the last pair compared.
pub open spec fn spec_strip_common_ladder(l: Seq<TermV>, r: Seq<TermV>, i: nat, last: (TermV, TermV), fuel: nat) -> Option<(TermV, TermV)>
    decreases fuel, l.len() - i + 1,
{
    if i >= l.len() || i >= r.len() {
        Some(last)
    } else if l[i as int] == r[i as int] {
        spec_strip_common_ladder(l, r, i + 1, (l[i as int], r[i as int]), fuel)
    } else {
        match spec_strip_common(l[i as int], r[i as int], fuel) {
            Some((x, y)) => Some((
                TermV::Ladder(seq![x] + l.subrange((i + 1) as int, l.len() as int)),
                TermV::Ladder(seq![y] + r.subrange((i + 1) as int, r.len() as int)),
            )),
            None => None,
        }
    }
}

/// The arguments pairwise, as far as both go.
pub open spec fn spec_strip_common_args(l: Seq<TermV>, r: Seq<TermV>, fuel: nat) -> Option<(Seq<TermV>, Seq<TermV>)>
    decreases fuel, l.len() + 1,
{
    if l.len() == 0 || r.len() == 0 {
        Some((Seq::empty(), Seq::empty()))
    } else {
        let n = if l.len() < r.len() { l.len() } else { r.len() };
        match spec_strip_common_args(l.subrange(0, n - 1), r.subrange(0, n - 1), fuel) {
            None => None,
            Some((al, ar)) => match spec_strip_common(l[n - 1], r[n - 1], fuel) {
                None => None,
                Some((x, y)) => Some((al.push(x), ar.push(y))),
            },
        }
    }
}

/// For each field of `rm` in order, the field of `lm` with the same name, both stripped
/// of common rungs.  `.0` is false where some field of `rm` has no counterpart.
pub open spec fn spec_strip_common_fields(lm: Seq<FieldV>, rm: Seq<FieldV>, fuel: nat) -> Option<(bool, Seq<FieldV>, Seq<FieldV>)>
    decreases fuel, rm.len() + 1,
{
    if rm.len() == 0 {
        Some((true, Seq::empty(), Seq::empty()))
    } else {
        let last = rm[rm.len() - 1];
        match spec_strip_common_fields(lm, rm.subrange(0, rm.len() - 1), fuel) {
            None => None,
            Some((false, ml, mr)) => Some((false, ml, mr)),
            Some((true, ml, mr)) => match spec_find_field(lm, last.symbol) {
                None => Some((false, ml, mr)),
                Some(k) => match spec_strip_common(lm[k].ty, last.ty, fuel) {
                    None => None,
                    Some((x, y)) => Some((
                        true,
                        ml.push(FieldV { symbol: lm[k].symbol, ty: x }),
                        mr.push(FieldV { symbol: last.symbol, ty: y }),
                    )),
                },
            },
        }
    }
}

/// The terms of `v` from index `i` on.
fn copy_suffix(v: &Vec<TypeTerm>, i: usize) -> (r: Vec<TypeTerm>)
    requires
        i <= v.len(),
    ensures
        terms_view(r@) == terms_view(v@).subrange(i as int, v.len() as int),
{
    proof { lemma_terms_view(v@); }
    let mut r: Vec<TypeTerm> = Vec::new();
    let mut k: usize = i;
    assert(terms_view(r@) =~= terms_view(v@).subrange(i as int, i as int));
    while k < v.len()
        invariant
            i <= k <= v.len(),
            terms_view(v@).len() == v.len(),
            forall|j: int| 0 <= j < v.len() ==> #[trigger] terms_view(v@)[j] == term_view(v@[j]),
            terms_view(r@) == terms_view(v@).subrange(i as int, k as int),
        decreases v.len() - k,
    {
        let t = v[k].copy();
        proof { lemma_terms_view_push(r@, t); }
        r.push(t);
        assert(terms_view(v@).subrange(i as int, k + 1) =~= terms_view(v@).subrange(i as int, k as int).push(terms_view(v@)[k as int]));
        k += 1;
    }
    r
}

/// Two ladders: equal rungs are dropped up to the first pair of different rungs.
fn strip_common_ladder_f(l: &Vec<TypeTerm>, r: &Vec<TypeTerm>, fuel: u64) -> (res: Option<(TypeTerm, TypeTerm)>)
    ensures
        spec_strip_common_ladder(terms_view(l@), terms_view(r@), 0, (spec_unit(), spec_unit()), fuel as nat) == match res {
            Some((x, y)) => Some((x@, y@)),
            None => None,
        },
    decreases fuel, 1nat,
{
    let ghost sl = terms_view(l@);
    let ghost sr = terms_view(r@);
    proof {
        lemma_terms_view(l@);
        lemma_terms_view(r@);
    }
    let ghost target = spec_strip_common_ladder(sl, sr, 0, (spec_unit(), spec_unit()), fuel as nat);
    let mut last_l = TypeTerm::unit();
    let mut last_r = TypeTerm::unit();
    let mut i: usize = 0;
    while i < l.len() && i < r.len()
        invariant
            sl == terms_view(l@),
            sr == terms_view(r@),
            sl.len() == l.len(),
            sr.len() == r.len(),
            forall|j: int| 0 <= j < l.len() ==> #[trigger] sl[j] == term_view(l@[j]),
            forall|j: int| 0 <= j < r.len() ==> #[trigger] sr[j] == term_view(r@[j]),
            spec_strip_common_ladder(sl, sr, i as nat, (last_l@, last_r@), fuel as nat) == target,
            target == spec_strip_common_ladder(terms_view(l@), terms_view(r@), 0, (spec_unit(), spec_unit()), fuel as nat),
        decreases l.len() - i,
    {
        if !l[i].same(&r[i]) {
            match strip_common_f(&l[i], &r[i], fuel) {
                None => {
                    return None;
                },
                Some((x, y)) => {
                    let mut rl = copy_suffix(l, i + 1);
                    let mut rr = copy_suffix(r, i + 1);
                    proof {
                        lemma_terms_view_prepend(rl@, x);
                        lemma_terms_view_prepend(rr@, y);
                    }
                    rl.insert(0, x);
                    rr.insert(0, y);
                    return Some((TypeTerm::Ladder(rl), TypeTerm::Ladder(rr)));
                },
            }
        }
        last_l = l[i].copy();
        last_r = r[i].copy();
        i += 1;
    }
    Some((last_l, last_r))
}

/// The arguments pairwise, as far as both go.
fn strip_common_args_f(l: &Vec<TypeTerm>, r: &Vec<TypeTerm>, fuel: u64) -> (res: Option<(Vec<TypeTerm>, Vec<TypeTerm>)>)
    ensures
        spec_strip_common_args(terms_view(l@), terms_view(r@), fuel as nat) == match res {
            Some((x, y)) => Some((terms_view(x@), terms_view(y@))),
            None => None,
        },
    decreases fuel, 1nat,
{
    let ghost sl = terms_view(l@);
    let ghost sr = terms_view(r@);
    proof {
        lemma_terms_view(l@);
        lemma_terms_view(r@);
    }
    let n: usize = if l.len() < r.len() { l.len() } else { r.len() };
    let mut rl: Vec<TypeTerm> = Vec::new();
    let mut rr: Vec<TypeTerm> = Vec::new();
    let mut i: usize = 0;
    assert(terms_view(rl@) =~= Seq::<TermV>::empty());
    assert(terms_view(rr@) =~= Seq::<TermV>::empty());
    while i < n
        invariant
            i <= n,
            n <= l.len(),
            n <= r.len(),
            sl == terms_view(l@),
            sr == terms_view(r@),
            sl.len() == l.len(),
            sr.len() == r.len(),
            forall|j: int| 0 <= j < l.len() ==> #[trigger] sl[j] == term_view(l@[j]),
            forall|j: int| 0 <= j < r.len() ==> #[trigger] sr[j] == term_view(r@[j]),
            spec_strip_common_args(sl.subrange(0, i as int), sr.subrange(0, i as int), fuel as nat) == Some((terms_view(rl@), terms_view(rr@))),
        decreases n - i,
    {
        assert(sl.subrange(0, i + 1).subrange(0, i as int) =~= sl.subrange(0, i as int));
        assert(sr.subrange(0, i + 1).subrange(0, i as int) =~= sr.subrange(0, i as int));
        match strip_common_f(&l[i], &r[i], fuel) {
            None => {
                proof { lemma_strip_common_args_none(sl, sr, i as int + 1, fuel as nat); }
                return None;
            },
            Some((x, y)) => {
                proof {
                    lemma_terms_view_push(rl@, x);
                    lemma_terms_view_push(rr@, y);
                }
                rl.push(x);
                rr.push(y);
            },
        }
        i += 1;
    }
    proof { lemma_strip_common_args_prefix(sl, sr, fuel as nat); }
    Some((rl, rr))
}

/// Extending the compared prefix of a failed pairwise strip keeps it failed.
proof fn lemma_strip_common_args_none(sl: Seq<TermV>, sr: Seq<TermV>, k: int, fuel: nat)
    requires
        0 <= k <= sl.len(),
        k <= sr.len(),
        spec_strip_common_args(sl.subrange(0, k), sr.subrange(0, k), fuel) is None,
    ensures
        spec_strip_common_args(sl, sr, fuel) is None,
    decreases sl.len() + sr.len() - 2 * k,
{
    let n = if sl.len() < sr.len() { sl.len() } else { sr.len() };
    if k < n {
        assert(sl.subrange(0, k + 1).subrange(0, k) =~= sl.subrange(0, k));
        assert(sr.subrange(0, k + 1).subrange(0, k) =~= sr.subrange(0, k));
        lemma_strip_common_args_none(sl, sr, k + 1, fuel);
    } else {
        lemma_strip_common_args_prefix(sl, sr, fuel);
        assert(sl.subrange(0, n as int) =~= sl.subrange(0, k));
        assert(sr.subrange(0, n as int) =~= sr.subrange(0, k));
    }
}

/// The pairwise strip looks only at the common prefix.
proof fn lemma_strip_common_args_prefix(sl: Seq<TermV>, sr: Seq<TermV>, fuel: nat)
    ensures
        ({
            let n = if sl.len() < sr.len() { sl.len() } else { sr.len() };
            spec_strip_common_args(sl, sr, fuel) == spec_strip_common_args(sl.subrange(0, n as int), sr.subrange(0, n as int), fuel)
        }),
{
    let n = if sl.len() < sr.len() { sl.len() } else { sr.len() };
    let pl = sl.subrange(0, n as int);
    let pr = sr.subrange(0, n as int);
    if n > 0 {
        assert(pl.subrange(0, n - 1) =~= sl.subrange(0, n - 1));
        assert(pr.subrange(0, n - 1) =~= sr.subrange(0, n - 1));
    }
}

/// For each member of `rm`, the member of `lm` with the same name, both stripped.
fn strip_common_members_f(lm: &Vec<StructMember>, rm: &Vec<StructMember>, fuel: u64) -> (res: Option<(bool, Vec<StructMember>, Vec<StructMember>)>)
    ensures
        spec_strip_common_fields(members_view(lm@), members_view(rm@), fuel as nat) == match res {
            Some((b, x, y)) => Some((b, members_view(x@), members_view(y@))),
            None => None,
        },
    decreases fuel, 1nat,
{
    let ghost sl = members_view(lm@);
    let ghost sr = members_view(rm@);
    proof {
        lemma_members_view(lm@);
        lemma_members_view(rm@);
    }
    let mut ml: Vec<StructMember> = Vec::new();
    let mut mr: Vec<StructMember> = Vec::new();
    let mut k: usize = 0;
    assert(members_view(ml@) =~= Seq::<FieldV>::empty());
    assert(members_view(mr@) =~= Seq::<FieldV>::empty());
    while k < rm.len()
        invariant
            k <= rm.len(),
            sl == members_view(lm@),
            sr == members_view(rm@),
            sl.len() == lm.len(),
            sr.len() == rm.len(),
            forall|j: int| 0 <= j < lm.len() ==> #[trigger] sl[j] == lm@[j]@,
            forall|j: int| 0 <= j < rm.len() ==> #[trigger] sr[j] == rm@[j]@,
            spec_strip_common_fields(sl, sr.subrange(0, k as int), fuel as nat) == Some((true, members_view(ml@), members_view(mr@))),
        decreases rm.len() - k,
    {
        let ghost sub = sr.subrange(0, k + 1);
        assert(sub.subrange(0, k as int) =~= sr.subrange(0, k as int));
        assert(sub[k as int] == sr[k as int]);
        assert(sr[k as int] == rm@[k as int]@);
        proof { lemma_find_field(sl, sr[k as int].symbol); }
        match find_member(lm, &rm[k].symbol) {
            None => {
                proof { lemma_strip_common_fields_stop(sl, sr, k as int + 1, fuel as nat); }
                return Some((false, ml, mr));
            },
            Some(j) => {
                assert(sl[j as int] == lm@[j as int]@);
                match strip_common_f(&lm[j].ty, &rm[k].ty, fuel) {
                    None => {
                        proof { lemma_strip_common_fields_none(sl, sr, k as int + 1, fuel as nat); }
                        return None;
                    },
                    Some((x, y)) => {
                        let a = StructMember { symbol: lm[j].symbol.clone(), ty: x };
                        let b = StructMember { symbol: rm[k].symbol.clone(), ty: y };
                        proof {
                            lemma_members_view_push(ml@, a);
                            lemma_members_view_push(mr@, b);
                        }
                        ml.push(a);
                        mr.push(b);
                    },
                }
            },
        }
        k += 1;
    }
    assert(sr.subrange(0, rm.len() as int) =~= sr);
    Some((true, ml, mr))
}

/// For each variant of `rm`, the variant of `lm` with the same name, both stripped.
fn strip_common_variants_f(lm: &Vec<EnumVariant>, rm: &Vec<EnumVariant>, fuel: u64) -> (res: Option<(bool, Vec<EnumVariant>, Vec<EnumVariant>)>)
    ensures
        spec_strip_common_fields(variants_view(lm@), variants_view(rm@), fuel as nat) == match res {
            Some((b, x, y)) => Some((b, variants_view(x@), variants_view(y@))),
            None => None,
        },
    decreases fuel, 1nat,
{
    let ghost sl = variants_view(lm@);
    let ghost sr = variants_view(rm@);
    proof {
        lemma_variants_view(lm@);
        lemma_variants_view(rm@);
    }
    let mut ml: Vec<EnumVariant> = Vec::new();
    let mut mr: Vec<EnumVariant> = Vec::new();
    let mut k: usize = 0;
    assert(variants_view(ml@) =~= Seq::<FieldV>::empty());
    assert(variants_view(mr@) =~= Seq::<FieldV>::empty());
    while k < rm.len()
        invariant
            k <= rm.len(),
            sl == variants_view(lm@),
            sr == variants_view(rm@),
            sl.len() == lm.len(),
            sr.len() == rm.len(),
            forall|j: int| 0 <= j < lm.len() ==> #[trigger] sl[j] == lm@[j]@,
            forall|j: int| 0 <= j < rm.len() ==> #[trigger] sr[j] == rm@[j]@,
            spec_strip_common_fields(sl, sr.subrange(0, k as int), fuel as nat) == Some((true, variants_view(ml@), variants_view(mr@))),
        decreases rm.len() - k,
    {
        let ghost sub = sr.subrange(0, k + 1);
        assert(sub.subrange(0, k as int) =~= sr.subrange(0, k as int));
        assert(sub[k as int] == sr[k as int]);
        assert(sr[k as int] == rm@[k as int]@);
        proof { lemma_find_field(sl, sr[k as int].symbol); }
        match find_variant(lm, &rm[k].symbol) {
            None => {
                proof { lemma_strip_common_fields_stop(sl, sr, k as int + 1, fuel as nat); }
                return Some((false, ml, mr));
            },
            Some(j) => {
                assert(sl[j as int] == lm@[j as int]@);
                match strip_common_f(&lm[j].ty, &rm[k].ty, fuel) {
                    None => {
                        proof { lemma_strip_common_fields_none(sl, sr, k as int + 1, fuel as nat); }
                        return None;
                    },
                    Some((x, y)) => {
                        let a = EnumVariant { symbol: lm[j].symbol.clone(), ty: x };
                        let b = EnumVariant { symbol: rm[k].symbol.clone(), ty: y };
                        proof {
                            lemma_variants_view_push(ml@, a);
                            lemma_variants_view_push(mr@, b);
                        }
                        ml.push(a);
                        mr.push(b);
                    },
                }
            },
        }
        k += 1;
    }
    assert(sr.subrange(0, rm.len() as int) =~= sr);
    Some((true, ml, mr))
}

/// Once a field has no counterpart, the later fields change nothing.
proof fn lemma_strip_common_fields_stop(lm: Seq<FieldV>, rm: Seq<FieldV>, k: int, fuel: nat)
    requires
        0 <= k <= rm.len(),
        spec_strip_common_fields(lm, rm.subrange(0, k), fuel) matches Some((false, _, _)),
    ensures
        spec_strip_common_fields(lm, rm, fuel) == spec_strip_common_fields(lm, rm.subrange(0, k), fuel),
    decreases rm.len() - k,
{
    if k < rm.len() {
        assert(rm.subrange(0, k + 1).subrange(0, k) =~= rm.subrange(0, k));
        lemma_strip_common_fields_stop(lm, rm, k + 1, fuel);
    } else {
        assert(rm.subrange(0, k) =~= rm);
    }
}

/// Once a field fails within the budget, the whole strip fails.
proof fn lemma_strip_common_fields_none(lm: Seq<FieldV>, rm: Seq<FieldV>, k: int, fuel: nat)
    requires
        0 <= k <= rm.len(),
        spec_strip_common_fields(lm, rm.subrange(0, k), fuel) is None,
    ensures
        spec_strip_common_fields(lm, rm, fuel) is None,
    decreases rm.len() - k,
{
    if k < rm.len() {
        assert(rm.subrange(0, k + 1).subrange(0, k) =~= rm.subrange(0, k));
        lemma_strip_common_fields_none(lm, rm, k + 1, fuel);
    } else {
        assert(rm.subrange(0, k) =~= rm);
    }
}

/// Source and destination with their common rungs removed, componentwise.
pub fn strip_common_f(a: &TypeTerm, b: &TypeTerm, fuel: u64) -> (res: Option<(TypeTerm, TypeTerm)>)
    ensures
        spec_strip_common(a@, b@, fuel as nat) == match res {
            Some((x, y)) => Some((x@, y@)),
            None => None,
        },
    decreases fuel, 0nat,
{
    if fuel == 0 {
        return None;
    }
    let f = fuel - 1;
    let x = a.strip_ref();
    let y = b.strip_ref();
    proof {
        lemma_view_variant(&x);
        lemma_view_variant(&y);
    }
    match (&x, &y) {
        (TypeTerm::Ladder(l), TypeTerm::Ladder(r)) => strip_common_ladder_f(l, r, f),
        (TypeTerm::Spec(l), TypeTerm::Spec(r)) => match strip_common_args_f(l, r, f) {
            Some((rl, rr)) => Some((TypeTerm::Spec(rl), TypeTerm::Spec(rr))),
            None => None,
        },
        (TypeTerm::Sequence { seq_repr: lr, item: li }, TypeTerm::Sequence { seq_repr: rr, item: ri }) =>
            match strip_common_f(li, ri, f) {
                Some((p, q)) => {
                    let lr2 = copy_opt(lr);
                    let rr2 = copy_opt(rr);
                    Some((TypeTerm::Sequence { seq_repr: lr2, item: Box::new(p) }, TypeTerm::Sequence { seq_repr: rr2, item: Box::new(q) }))
                },
                None => None,
            },
        (TypeTerm::Struct { struct_repr: lr, members: lm }, TypeTerm::Struct { struct_repr: rr, members: rm }) =>
            match strip_common_members_f(lm, rm, f) {
                None => None,
                Some((true, ml, mr)) => Some((
                    TypeTerm::Struct { struct_repr: copy_opt(lr), members: ml },
                    TypeTerm::Struct { struct_repr: copy_opt(rr), members: mr },
                )),
                Some((false, _, _)) => Some((x.copy(), y.copy())),
            },
        (TypeTerm::Enum { enum_repr: lr, variants: lm }, TypeTerm::Enum { enum_repr: rr, variants: rm }) =>
            match strip_common_variants_f(lm, rm, f) {
                None => None,
                Some((true, ml, mr)) => Some((
                    TypeTerm::Enum { enum_repr: copy_opt(lr), variants: ml },
                    TypeTerm::Enum { enum_repr: copy_opt(rr), variants: mr },
                )),
                Some((false, _, _)) => Some((x.copy(), y.copy())),
            },
        _ => Some((x.copy(), y.copy())),
    }
}

//------------------------------------------------------------------
// Normalization, substitution and cost
//------------------------------------------------------------------

/// Each bound with both sides in parameter normal form.
pub open spec fn spec_normalize_bounds(s: Seq<PairV>, fuel: nat) -> Option<Seq<PairV>>
    decreases s.len(),
{
    if s.len() == 0 {
        Some(Seq::empty())
    } else {
        match (spec_normalize_bounds(s.drop_last(), fuel), spec_normalize_pair(s.last(), fuel)) {
            (Some(p), Some(x)) => Some(p.push(x)),
            _ => None,
        }
    }
}

/// The morphism type with bounds, source and destination in parameter normal form.
pub open spec fn spec_normalize_morph(m: MorphTypeV, fuel: nat) -> Option<MorphTypeV> {
    match (spec_normalize_bounds(m.bounds, fuel), spec_normalize(m.src, fuel), spec_normalize(m.dst, fuel)) {
        (Some(b), Some(s), Some(d)) => Some(MorphTypeV { gamma: m.gamma, bounds: b, src: s, dst: d }),
        _ => None,
    }
}

impl Clone for MorphismType {
    /// A copy of this morphism type.
    fn clone(&self) -> (r: MorphismType)
        ensures
            r@ == self@,
    {
        self.copy()
    }
}

impl MorphismType {
    /// A copy of this morphism type.
    pub fn copy(&self) -> (r: MorphismType)
        ensures
            r@ == self@,
    {
        MorphismType {
            gamma: copy_entries(&self.gamma),
            bounds: copy_pairs(&self.bounds),
            src_type: self.src_type.copy(),
            dst_type: self.dst_type.copy(),
        }
    }

    /// Source and destination with their common rungs removed, within the step budget.
    pub fn try_strip_common_rungs(&self) -> (r: Option<MorphismType>)
        ensures
            match r {
                Some(m) => spec_strip_common(self@.src, self@.dst, STEP_BUDGET as nat) == Some((m@.src, m@.dst))
                    && m@.gamma == self@.gamma && m@.bounds == self@.bounds,
                None => spec_strip_common(self@.src, self@.dst, STEP_BUDGET as nat) is None,
            },
    {
        match strip_common_f(&self.src_type, &self.dst_type, STEP_BUDGET) {
            Some((x, y)) => Some(MorphismType {
                gamma: copy_entries(&self.gamma),
                bounds: copy_pairs(&self.bounds),
                src_type: x,
                dst_type: y,
            }),
            None => None,
        }
    }

    /// The morphism type with the rungs that source and destination share removed,
    /// componentwise: of two ladders, the equal rungs on top are dropped.
    pub fn strip_common_rungs(&self) -> (r: MorphismType)
        requires
            spec_strip_common(self@.src, self@.dst, STEP_BUDGET as nat) is Some,
        ensures
            spec_strip_common(self@.src, self@.dst, STEP_BUDGET as nat) == Some((r@.src, r@.dst)),
            r@.gamma == self@.gamma,
            r@.bounds == self@.bounds,
    {
        match self.try_strip_common_rungs() {
            Some(m) => m,
            None => self.copy(),
        }
    }

    /// The morphism type with a substitution applied to bounds, source and destination.
    pub fn apply_subst<S: Substitution>(&self, s: &S) -> (r: MorphismType)
        ensures
            r@ == (MorphTypeV {
                gamma: self@.gamma,
                bounds: spec_apply_pairs(self@.bounds, s.subst_map()),
                src: spec_apply(self@.src, s.subst_map()),
                dst: spec_apply(self@.dst, s.subst_map()),
            }),
    {
        MorphismType {
            gamma: copy_entries(&self.gamma),
            bounds: apply_pairs(&self.bounds, s),
            src_type: self.src_type.applied(s),
            dst_type: self.dst_type.applied(s),
        }
    }

    /// Whether two morphism types are the same.
    pub fn same(&self, other: &MorphismType) -> (r: bool)
        ensures
            r == (self@ == other@),
    {
        crate::term::same_entries(&self.gamma, &other.gamma)
            && crate::term::same_pairs(&self.bounds, &other.bounds)
            && self.src_type.same(&other.src_type)
            && self.dst_type.same(&other.dst_type)
    }

    /// Bounds, source and destination normalized, within the step budget.
    pub fn try_normalize(&self) -> (r: Option<MorphismType>)
        ensures
            spec_normalize_morph(self@, STEP_BUDGET as nat) == match r {
                Some(m) => Some(m@),
                None => None,
            },
    {
        let ghost sb = pairs_view(self.bounds@);
        proof { lemma_pairs_view(self.bounds@); }
        let mut bounds: Vec<ConstraintPair> = Vec::new();
        let mut i: usize = 0;
        assert(pairs_view(bounds@) =~= Seq::<PairV>::empty());
        while i < self.bounds.len()
            invariant
                i <= self.bounds.len(),
                sb == pairs_view(self.bounds@),
                sb.len() == self.bounds.len(),
                forall|j: int| 0 <= j < self.bounds.len() ==> #[trigger] sb[j] == self.bounds@[j]@,
                spec_normalize_bounds(sb.subrange(0, i as int), STEP_BUDGET as nat) == Some(pairs_view(bounds@)),
            decreases self.bounds.len() - i,
        {
            let ghost sub = sb.subrange(0, i + 1);
            assert(sub.drop_last() =~= sb.subrange(0, i as int));
            assert(sub.last() == sb[i as int]);
            match self.bounds[i].try_normalize() {
                Some(p) => {
                    proof { lemma_pairs_view_push(bounds@, p); }
                    bounds.push(p);
                },
                None => {
                    proof { lemma_normalize_bounds_none(sb, i as int + 1, STEP_BUDGET as nat); }
                    return None;
                },
            }
            i += 1;
        }
        assert(sb.subrange(0, self.bounds.len() as int) =~= sb);
        match (self.src_type.try_normalize(), self.dst_type.try_normalize()) {
            (Some(s), Some(d)) => Some(MorphismType { gamma: copy_entries(&self.gamma), bounds, src_type: s, dst_type: d }),
            _ => None,
        }
    }

    /// Bounds, source and destination in parameter normal form.
    pub fn normalize(&self) -> (r: MorphismType)
        requires
            spec_normalize_morph(self@, STEP_BUDGET as nat) is Some,
        ensures
            spec_normalize_morph(self@, STEP_BUDGET as nat) == Some(r@),
    {
        match self.try_normalize() {
            Some(m) => m,
            None => self.copy(),
        }
    }

}

/// Once a bound cannot be normalized, the whole list cannot.
proof fn lemma_normalize_bounds_none(s: Seq<PairV>, k: int, fuel: nat)
    requires
        0 <= k <= s.len(),
        spec_normalize_bounds(s.subrange(0, k), fuel) is None,
    ensures
        spec_normalize_bounds(s, fuel) is None,
    decreases s.len() - k,
{
    if k < s.len() {
        assert(s.subrange(0, k + 1).drop_last() =~= s.subrange(0, k));
        lemma_normalize_bounds_none(s, k + 1, fuel);
    } else {
        assert(s.subrange(0, k) =~= s);
    }
}

/// The morphism type that a term denotes: a morphism `a -morph-> b` or a function
/// `a --> b` (its first two types), under the variables and bounds of the universal types
/// around it, after normalization; `Some(None)` for a term that denotes none; `None`
/// where a function type has fewer than two types, the normalization budget runs out or
/// universal types are nested deeper than `depth`.
pub open spec fn spec_into_morphism(t: TermV, depth: nat) -> Option<Option<MorphTypeV>>
    decreases depth,
{
    if depth == 0 {
        None
    } else {
        match spec_normalize(t, STEP_BUDGET as nat) {
            None => None,
            Some(n) => match n {
                TermV::Univ { gamma, bounds, tau } => match spec_into_morphism(*tau, (depth - 1) as nat) {
                    Some(Some(m)) => Some(Some(MorphTypeV { gamma, bounds, ..m })),
                    other => other,
                },
                TermV::Morph(a, b) => Some(Some(MorphTypeV { gamma: Seq::empty(), bounds: Seq::empty(), src: *a, dst: *b })),
                TermV::Func(args) => if args.len() >= 2 {
                    Some(Some(MorphTypeV { gamma: Seq::empty(), bounds: Seq::empty(), src: args[0], dst: args[1] }))
                } else {
                    None
                },
                _ => Some(None),
            },
        }
    }
}

/// The morphism type of a normalized term, within `depth` nested universal types.
fn into_morphism_f(n: TypeTerm, depth: u64) -> (r: Option<Option<MorphismType>>)
    ensures
        spec_into_morphism(n@, depth as nat) == match r {
            Some(Some(m)) => Some(Some(m@)),
            Some(None) => Some(None),
            None => None,
        },
    decreases depth,
{
    if depth == 0 {
        return None;
    }
    let norm = match n.try_normalize() {
        Some(x) => x,
        None => {
            return None;
        },
    };
    proof { lemma_view_variant(&norm); }
    match norm {
        TypeTerm::Univ { gamma, bounds, tau } => {
            match into_morphism_f(*tau, depth - 1) {
                Some(Some(m)) => Some(Some(MorphismType { gamma, bounds, src_type: m.src_type, dst_type: m.dst_type })),
                Some(None) => Some(None),
                None => None,
            }
        },
        TypeTerm::Morph(a, b) => {
            let r = MorphismType { gamma: Vec::new(), bounds: Vec::new(), src_type: *a, dst_type: *b };
            assert(entries_view(r.gamma@) =~= Seq::<EntryV>::empty());
            assert(pairs_view(r.bounds@) =~= Seq::<PairV>::empty());
            Some(Some(r))
        },
        TypeTerm::Func(args) => {
            proof { lemma_terms_view(args@); }
            if args.len() >= 2 {
                let r = MorphismType { gamma: Vec::new(), bounds: Vec::new(), src_type: args[0].copy(), dst_type: args[1].copy() };
                assert(entries_view(r.gamma@) =~= Seq::<EntryV>::empty());
                assert(pairs_view(r.bounds@) =~= Seq::<PairV>::empty());
                Some(Some(r))
            } else {
                None
            }
        },
        _ => Some(None),
    }
}

impl TypeTerm {
    /// The morphism type that the term denotes, if any, within the step budget: `None`
    /// where the budget runs out or a function type has fewer than two types.
    pub fn try_into_morphism_type(self) -> (r: Option<Option<MorphismType>>)
        ensures
            spec_into_morphism(self@, STEP_BUDGET as nat) == match r {
                Some(Some(m)) => Some(Some(m@)),
                Some(None) => Some(None),
                None => None,
            },
    {
        into_morphism_f(self, STEP_BUDGET)
    }

    /// The morphism type that the term denotes: `a -morph-> b` and `a --> b` denote the
    /// morphisms from `a` to `b`, under the variables and bounds of the universal types
    /// around them; other terms denote none.
    pub fn into_morphism_type(self) -> (r: Option<MorphismType>)
        requires
            spec_into_morphism(self@, STEP_BUDGET as nat) is Some,
        ensures
            spec_into_morphism(self@, STEP_BUDGET as nat) == Some(match r {
                Some(m) => Some(m@),
                None => None,
            }),
    {
        match into_morphism_f(self, STEP_BUDGET) {
            Some(x) => x,
            None => None,
        }
    }
}

} // verus!
