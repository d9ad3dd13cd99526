//! Substitutions of type variables and their application to terms.

use std::collections::HashMap;
use vstd::prelude::*;
use crate::term_ops::spec_contains_var;
use crate::term::{
    TypeTerm, TermV, PairV, FieldV, StructMember, EnumVariant, ConstraintPair, term_view, terms_view,
    pair_view, pairs_view, members_view, variants_view, opt_view, lemma_terms_view, lemma_terms_view_push,
    lemma_pairs_view, lemma_members_view, lemma_members_view_push, lemma_variants_view,
    lemma_variants_view_push, copy_entries,
};

verus! {

broadcast use vstd::std_specs::hash::group_hash_axioms;

/// Why a substitution has no term for a variable.
#[derive(Clone, Copy, Debug, PartialEq, Eq)]
pub enum SubstError {
    InvalidVariable,
    UnassignedVariable,
    AlreadyAssigned,
}

/// A substitution held in a hash map from variable ids to terms.
pub type HashMapSubst = HashMap<u64, TypeTerm>;

/// The model of a hash-map substitution: each term by its model.
pub open spec fn subst_view(m: HashMap<u64, TypeTerm>) -> Map<u64, TermV> {
    m@.map_values(|t: TypeTerm| term_view(t))
}

/// Something that maps variables to terms.
pub trait Substitution {
    /// The mapping, by models.
    spec fn subst_map(&self) -> Map<u64, TermV>;

    /// The term that variable `v` is mapped to.
    fn get(&self, v: u64) -> (r: Result<TypeTerm, SubstError>)
        ensures
            match r {
                Ok(t) => self.subst_map().contains_key(v) && self.subst_map()[v] == t@,
                Err(_) => !self.subst_map().contains_key(v),
            },
    ;
}

impl Substitution for HashMap<u64, TypeTerm> {
    open spec fn subst_map(&self) -> Map<u64, TermV> {
        subst_view(*self)
    }

    fn get(&self, v: u64) -> (r: Result<TypeTerm, SubstError>) {
        match HashMap::get(self, &v) {
            Some(t) => Ok(t.copy()),
            None => Err(SubstError::InvalidVariable),
        }
    }
}

//------------------------------------------------------------------
// Specification of application
//------------------------------------------------------------------

/// Replaces each variable that `s` maps by its term (once, not recursively).
pub open spec fn spec_apply(t: TermV, s: Map<u64, TermV>) -> TermV
    decreases t,
{
    match t {
        TermV::Var(v) => if s.contains_key(v) { s[v] } else { t },
        TermV::Ladder(a) => TermV::Ladder(spec_apply_seq(a, s)),
        TermV::Spec(a) => TermV::Spec(spec_apply_seq(a, s)),
        TermV::Func(a) => TermV::Func(spec_apply_seq(a, s)),
        TermV::Univ { gamma, bounds, tau } => TermV::Univ {
            gamma,
            bounds: spec_apply_pairs(bounds, s),
            tau: Box::new(spec_apply(*tau, s)),
        },
        TermV::Morph(a, b) => TermV::Morph(Box::new(spec_apply(*a, s)), Box::new(spec_apply(*b, s))),
        TermV::Struct { repr, members } => TermV::Struct {
            repr: spec_apply_opt(repr, s),
            members: spec_apply_fields(members, s),
        },
        TermV::Enum { repr, variants } => TermV::Enum {
            repr: spec_apply_opt(repr, s),
            variants: spec_apply_fields(variants, s),
        },
        TermV::Sequence { repr, item } => TermV::Sequence {
            repr: spec_apply_opt(repr, s),
            item: Box::new(spec_apply(*item, s)),
        },
        _ => t,
    }
}

pub open spec fn spec_apply_opt(o: Option<Box<TermV>>, s: Map<u64, TermV>) -> Option<Box<TermV>>
    decreases o,
{
    match o {
        Some(b) => Some(Box::new(spec_apply(*b, s))),
        None => None,
    }
}

pub open spec fn spec_apply_seq(q: Seq<TermV>, s: Map<u64, TermV>) -> Seq<TermV>
    decreases q,
{
    if q.len() == 0 {
        Seq::empty()
    } else {
        spec_apply_seq(q.subrange(0, q.len() - 1), s).push(spec_apply(q[q.len() - 1], s))
    }
}

pub open spec fn spec_apply_fields(q: Seq<FieldV>, s: Map<u64, TermV>) -> Seq<FieldV>
    decreases q,
{
    if q.len() == 0 {
        Seq::empty()
    } else {
        spec_apply_fields(q.subrange(0, q.len() - 1), s).push(
            FieldV { symbol: q[q.len() - 1].symbol, ty: spec_apply(q[q.len() - 1].ty, s) },
        )
    }
}

/// Applies a substitution to both sides of a constraint.
pub open spec fn spec_apply_pair(p: PairV, s: Map<u64, TermV>) -> PairV
    decreases p,
{
    match p {
        PairV::ValueOf(a, b) => PairV::ValueOf(spec_apply(a, s), spec_apply(b, s)),
        PairV::Subtype(a, b) => PairV::Subtype(spec_apply(a, s), spec_apply(b, s)),
        PairV::Trait(a, b) => PairV::Trait(spec_apply(a, s), spec_apply(b, s)),
        PairV::Parallel(a, b) => PairV::Parallel(spec_apply(a, s), spec_apply(b, s)),
    }
}

pub open spec fn spec_apply_pairs(q: Seq<PairV>, s: Map<u64, TermV>) -> Seq<PairV>
    decreases q,
{
    if q.len() == 0 {
        Seq::empty()
    } else {
        spec_apply_pairs(q.subrange(0, q.len() - 1), s).push(spec_apply_pair(q[q.len() - 1], s))
    }
}

//------------------------------------------------------------------
// Application
//------------------------------------------------------------------

fn apply_seq<S: Substitution>(v: &Vec<TypeTerm>, s: &S) -> (r: Vec<TypeTerm>)
    ensures
        terms_view(r@) == spec_apply_seq(terms_view(v@), s.subst_map()),
    decreases v,
{
    let ghost sv = terms_view(v@);
    proof { lemma_terms_view(v@); }
    let mut r: Vec<TypeTerm> = Vec::new();
    let mut i: usize = 0;
    assert(terms_view(r@) =~= spec_apply_seq(sv.subrange(0, 0), s.subst_map()));
    while i < v.len()
        invariant
            i <= v.len(),
            sv == terms_view(v@),
            sv.len() == v.len(),
            forall|j: int| 0 <= j < v.len() ==> #[trigger] sv[j] == term_view(v@[j]),
            terms_view(r@) == spec_apply_seq(sv.subrange(0, i as int), s.subst_map()),
        decreases v.len() - i,
    {
        let t = v[i].applied(s);
        proof {
            lemma_terms_view_push(r@, t);
            assert(sv.subrange(0, i + 1).subrange(0, i as int) =~= sv.subrange(0, i as int));
        }
        r.push(t);
        i += 1;
    }
    assert(sv.subrange(0, v.len() as int) =~= sv);
    r
}

pub fn apply_pairs<S: Substitution>(v: &Vec<ConstraintPair>, s: &S) -> (r: Vec<ConstraintPair>)
    ensures
        pairs_view(r@) == spec_apply_pairs(pairs_view(v@), s.subst_map()),
    decreases v,
{
    let ghost sv = pairs_view(v@);
    proof { lemma_pairs_view(v@); }
    let mut r: Vec<ConstraintPair> = Vec::new();
    let mut i: usize = 0;
    assert(pairs_view(r@) =~= spec_apply_pairs(sv.subrange(0, 0), s.subst_map()));
    while i < v.len()
        invariant
            i <= v.len(),
            sv == pairs_view(v@),
            sv.len() == v.len(),
            forall|j: int| 0 <= j < v.len() ==> #[trigger] sv[j] == pair_view(v@[j]),
            pairs_view(r@) == spec_apply_pairs(sv.subrange(0, i as int), s.subst_map()),
        decreases v.len() - i,
    {
        let t = v[i].applied(s);
        proof {
            assert(r@.push(t).subrange(0, r@.len() as int) =~= r@);
            assert(sv.subrange(0, i + 1).subrange(0, i as int) =~= sv.subrange(0, i as int));
        }
        r.push(t);
        i += 1;
    }
    assert(sv.subrange(0, v.len() as int) =~= sv);
    r
}

fn apply_members<S: Substitution>(v: &Vec<StructMember>, s: &S) -> (r: Vec<StructMember>)
    ensures
        members_view(r@) == spec_apply_fields(members_view(v@), s.subst_map()),
    decreases v,
{
    let ghost sv = members_view(v@);
    proof { lemma_members_view(v@); }
    let mut r: Vec<StructMember> = Vec::new();
    let mut i: usize = 0;
    assert(members_view(r@) =~= spec_apply_fields(sv.subrange(0, 0), s.subst_map()));
    while i < v.len()
        invariant
            i <= v.len(),
            sv == members_view(v@),
            sv.len() == v.len(),
            forall|j: int| 0 <= j < v.len() ==> #[trigger] sv[j] == v@[j]@,
            members_view(r@) == spec_apply_fields(sv.subrange(0, i as int), s.subst_map()),
        decreases v.len() - i,
    {
        let m = StructMember { symbol: v[i].symbol.clone(), ty: v[i].ty.applied(s) };
        proof {
            lemma_members_view_push(r@, m);
            assert(sv.subrange(0, i + 1).subrange(0, i as int) =~= sv.subrange(0, i as int));
        }
        r.push(m);
        i += 1;
    }
    assert(sv.subrange(0, v.len() as int) =~= sv);
    r
}

fn apply_variants<S: Substitution>(v: &Vec<EnumVariant>, s: &S) -> (r: Vec<EnumVariant>)
    ensures
        variants_view(r@) == spec_apply_fields(variants_view(v@), s.subst_map()),
    decreases v,
{
    let ghost sv = variants_view(v@);
    proof { lemma_variants_view(v@); }
    let mut r: Vec<EnumVariant> = Vec::new();
    let mut i: usize = 0;
    assert(variants_view(r@) =~= spec_apply_fields(sv.subrange(0, 0), s.subst_map()));
    while i < v.len()
        invariant
            i <= v.len(),
            sv == variants_view(v@),
            sv.len() == v.len(),
            forall|j: int| 0 <= j < v.len() ==> #[trigger] sv[j] == v@[j]@,
            variants_view(r@) == spec_apply_fields(sv.subrange(0, i as int), s.subst_map()),
        decreases v.len() - i,
    {
        let m = EnumVariant { symbol: v[i].symbol.clone(), ty: v[i].ty.applied(s) };
        proof {
            lemma_variants_view_push(r@, m);
            assert(sv.subrange(0, i + 1).subrange(0, i as int) =~= sv.subrange(0, i as int));
        }
        r.push(m);
        i += 1;
    }
    assert(sv.subrange(0, v.len() as int) =~= sv);
    r
}

fn apply_opt<S: Substitution>(o: &Option<Box<TypeTerm>>, s: &S) -> (r: Option<Box<TypeTerm>>)
    ensures
        opt_view(r) == spec_apply_opt(opt_view(*o), s.subst_map()),
    decreases o,
{
    match o {
        Some(b) => Some(Box::new(b.applied(s))),
        None => None,
    }
}

impl ConstraintPair {
    /// The constraint with a substitution applied to both sides.
    pub fn applied<S: Substitution>(&self, s: &S) -> (r: ConstraintPair)
        ensures
            r@ == spec_apply_pair(self@, s.subst_map()),
        decreases self,
    {
        match self {
            ConstraintPair::ValueOf(a, b) => ConstraintPair::ValueOf(a.applied(s), b.applied(s)),
            ConstraintPair::Subtype(a, b) => ConstraintPair::Subtype(a.applied(s), b.applied(s)),
            ConstraintPair::Trait(a, b) => ConstraintPair::Trait(a.applied(s), b.applied(s)),
            ConstraintPair::Parallel(a, b) => ConstraintPair::Parallel(a.applied(s), b.applied(s)),
        }
    }

    /// Applies a substitution to both sides of the constraint.
    pub fn apply_subst<S: Substitution>(&mut self, s: &S)
        ensures
            final(self)@ == spec_apply_pair(old(self)@, s.subst_map()),
    {
        *self = self.applied(s);
    }
}

impl TypeTerm {
    /// The term with a substitution applied.
    pub fn applied<S: Substitution>(&self, s: &S) -> (r: TypeTerm)
        ensures
            r@ == spec_apply(self@, s.subst_map()),
        decreases self,
    {
        match self {
            TypeTerm::Var(v) => {
                match s.get(*v) {
                    Ok(t) => t,
                    Err(_) => TypeTerm::Var(*v),
                }
            },
            TypeTerm::Ladder(a) => TypeTerm::Ladder(apply_seq(a, s)),
            TypeTerm::Spec(a) => TypeTerm::Spec(apply_seq(a, s)),
            TypeTerm::Func(a) => TypeTerm::Func(apply_seq(a, s)),
            TypeTerm::Univ { gamma, bounds, tau } => TypeTerm::Univ {
                gamma: copy_entries(gamma),
                bounds: apply_pairs(bounds, s),
                tau: Box::new(tau.applied(s)),
            },
            TypeTerm::Morph(a, b) => TypeTerm::Morph(Box::new(a.applied(s)), Box::new(b.applied(s))),
            TypeTerm::Struct { struct_repr, members } => TypeTerm::Struct {
                struct_repr: apply_opt(struct_repr, s),
                members: apply_members(members, s),
            },
            TypeTerm::Enum { enum_repr, variants } => TypeTerm::Enum {
                enum_repr: apply_opt(enum_repr, s),
                variants: apply_variants(variants, s),
            },
            TypeTerm::Sequence { seq_repr, item } => TypeTerm::Sequence {
                seq_repr: apply_opt(seq_repr, s),
                item: Box::new(item.applied(s)),
            },
            _ => self.copy(),
        }
    }

    /// Recursively applies a substitution to all subterms: every variable that the
    /// substitution maps is replaced by its term.
    pub fn apply_subst<S: Substitution>(&mut self, s: &S)
        ensures
            final(self)@ == spec_apply(old(self)@, s.subst_map()),
    {
        *self = self.applied(s);
    }

    /// Same as `apply_subst`, handing back this term for further changes.
    pub fn apply_substitution<S: Substitution>(&mut self, s: &S) -> (r: &mut Self)
        ensures
            (*r)@ == spec_apply(old(self)@, s.subst_map()),
            *final(self) == *final(r),
    {
        self.apply_subst(s);
        self
    }
}

//------------------------------------------------------------------
// Law: application replaces the variables
//------------------------------------------------------------------

/// A term without universal types (whose variables are counted from the outside).
pub open spec fn spec_no_univ(t: TermV) -> bool
    decreases t,
{
    match t {
        TermV::Univ { .. } => false,
        TermV::Spec(ts) | TermV::Func(ts) | TermV::Ladder(ts) => spec_all_no_univ(ts),
        TermV::Morph(a, b) => spec_no_univ(*a) && spec_no_univ(*b),
        TermV::Struct { repr, members } => spec_opt_no_univ(repr) && spec_fields_no_univ(members),
        TermV::Enum { repr, variants } => spec_opt_no_univ(repr) && spec_fields_no_univ(variants),
        TermV::Sequence { repr, item } => spec_opt_no_univ(repr) && spec_no_univ(*item),
        _ => true,
    }
}

pub open spec fn spec_opt_no_univ(o: Option<Box<TermV>>) -> bool
    decreases o,
{
    match o {
        Some(b) => spec_no_univ(*b),
        None => true,
    }
}

pub open spec fn spec_all_no_univ(q: Seq<TermV>) -> bool
    decreases q,
{
    q.len() > 0 ==> spec_all_no_univ(q.subrange(0, q.len() - 1)) && spec_no_univ(q[q.len() - 1])
}

pub open spec fn spec_fields_no_univ(q: Seq<FieldV>) -> bool
    decreases q,
{
    q.len() > 0 ==> spec_fields_no_univ(q.subrange(0, q.len() - 1)) && spec_no_univ(q[q.len() - 1].ty)
}

/// No term of `s` mentions a variable that `s` maps.
pub open spec fn spec_subst_closed(s: Map<u64, TermV>) -> bool {
    forall|u: u64, w: u64| #[trigger] s.contains_key(u) && #[trigger] s.contains_key(w) ==> !spec_contains_var(s[u], w as int)
}

/// Applying a substitution replaces every variable that it maps: where no term of the
/// substitution mentions such a variable, none is left in the result (for terms without
/// universal types, whose variables are numbered from the outside).
pub proof fn law_apply_replaces_vars(t: TermV, s: Map<u64, TermV>, w: u64)
    requires
        spec_no_univ(t),
        spec_subst_closed(s),
        s.contains_key(w),
    ensures
        !spec_contains_var(spec_apply(t, s), w as int),
    decreases t,
{
    match t {
        TermV::Var(x) => {
            if s.contains_key(x) {
                assert(!spec_contains_var(s[x], w as int));
            }
        },
        TermV::Spec(ts) => lemma_apply_seq_replaces(ts, s, w),
        TermV::Func(ts) => lemma_apply_seq_replaces(ts, s, w),
        TermV::Ladder(ts) => lemma_apply_seq_replaces(ts, s, w),
        TermV::Morph(a, b) => {
            law_apply_replaces_vars(*a, s, w);
            law_apply_replaces_vars(*b, s, w);
        },
        TermV::Struct { repr, members } => {
            lemma_apply_opt_replaces(repr, s, w);
            lemma_apply_fields_replaces(members, s, w);
        },
        TermV::Enum { repr, variants } => {
            lemma_apply_opt_replaces(repr, s, w);
            lemma_apply_fields_replaces(variants, s, w);
        },
        TermV::Sequence { repr, item } => {
            lemma_apply_opt_replaces(repr, s, w);
            law_apply_replaces_vars(*item, s, w);
        },
        _ => {},
    }
}

proof fn lemma_apply_opt_replaces(o: Option<Box<TermV>>, s: Map<u64, TermV>, w: u64)
    requires
        spec_opt_no_univ(o),
        spec_subst_closed(s),
        s.contains_key(w),
    ensures
        !crate::term_ops::spec_opt_contains_var(spec_apply_opt(o, s), w as int),
    decreases o,
{
    match o {
        Some(b) => law_apply_replaces_vars(*b, s, w),
        None => {},
    }
}

proof fn lemma_apply_seq_replaces(q: Seq<TermV>, s: Map<u64, TermV>, w: u64)
    requires
        spec_all_no_univ(q),
        spec_subst_closed(s),
        s.contains_key(w),
    ensures
        !crate::term_ops::spec_any_contains_var(spec_apply_seq(q, s), w as int),
    decreases q,
{
    if q.len() > 0 {
        let q0 = q.subrange(0, q.len() - 1);
        lemma_apply_seq_replaces(q0, s, w);
        law_apply_replaces_vars(q[q.len() - 1], s, w);
        let r = spec_apply_seq(q, s);
        lemma_apply_seq_len(q0, s);
        assert(r.subrange(0, r.len() - 1) =~= spec_apply_seq(q0, s));
    }
}

proof fn lemma_apply_seq_len(q: Seq<TermV>, s: Map<u64, TermV>)
    ensures
        spec_apply_seq(q, s).len() == q.len(),
    decreases q.len(),
{
    if q.len() > 0 {
        lemma_apply_seq_len(q.subrange(0, q.len() - 1), s);
    }
}

proof fn lemma_apply_fields_len(q: Seq<FieldV>, s: Map<u64, TermV>)
    ensures
        spec_apply_fields(q, s).len() == q.len(),
    decreases q.len(),
{
    if q.len() > 0 {
        lemma_apply_fields_len(q.subrange(0, q.len() - 1), s);
    }
}

proof fn lemma_apply_fields_replaces(q: Seq<FieldV>, s: Map<u64, TermV>, w: u64)
    requires
        spec_fields_no_univ(q),
        spec_subst_closed(s),
        s.contains_key(w),
    ensures
        !crate::term_ops::spec_any_field_contains_var(spec_apply_fields(q, s), w as int),
    decreases q,
{
    if q.len() > 0 {
        let q0 = q.subrange(0, q.len() - 1);
        lemma_apply_fields_replaces(q0, s, w);
        law_apply_replaces_vars(q[q.len() - 1].ty, s, w);
        let r = spec_apply_fields(q, s);
        lemma_apply_fields_len(q0, s);
        assert(r.subrange(0, r.len() - 1) =~= spec_apply_fields(q0, s));
    }
}

} // verus!
