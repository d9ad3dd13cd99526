//! A base of morphisms: the morphisms that a search can chain, and the step that finds
//! those that apply to a type.

use vstd::prelude::*;
use vstd::std_specs::iter::IteratorSpec;
use crate::term::{TypeTerm, TermV, FieldV, StructMember, members_view, lemma_members_view, lemma_view_variant};
use crate::term_ops::{spec_floor, spec_is_empty};
use crate::semantics::spec_find_field;
use crate::pnf::{find_member, lemma_find_field};
use crate::morphism::{MorphismType, MorphTypeV};
use crate::context::{ContextPtr, CtxV, spec_enter, spec_shift_vars, spec_shift_subst, ctx_size, ctx_n_variables};
use crate::semantics::{spec_normalize, spec_subtype_unify};
use crate::substitution::{HashMapSubst, subst_view, spec_apply};
use crate::constraint_system::{STEP_BUDGET, subtype_unify_f};
use crate::instance::{Morphism, MorphismInstance};

verus! {

/// The morphisms known in a context.
pub struct MorphismBase<M: Morphism + Clone> {
    gamma: ContextPtr,
    morphisms: Vec<M>,
}

impl<M: Morphism + Clone> MorphismBase<M> {
    /// The context of the base.
    pub closed spec fn spec_ctx(&self) -> CtxV {
        self.gamma@
    }

    /// The morphisms of the base, in the order they were added.
    pub closed spec fn spec_morphisms(&self) -> Seq<M> {
        self.morphisms@
    }

    /// An empty base in context `gamma`.
    pub fn new(gamma: ContextPtr) -> (r: MorphismBase<M>)
        ensures
            r.spec_ctx() == gamma@,
            r.spec_morphisms() == Seq::<M>::empty(),
    {
        MorphismBase { gamma, morphisms: Vec::new() }
    }

    /// The context of the base.
    pub fn ctx(&self) -> (r: ContextPtr)
        ensures
            r@ == self.spec_ctx(),
    {
        self.gamma.copy()
    }

    /// Adds a morphism to the base.
    pub fn add_morphism(&mut self, m: M)
        ensures
            final(self).spec_morphisms() == old(self).spec_morphisms().push(m),
            final(self).spec_ctx() == old(self).spec_ctx(),
    {
        self.morphisms.push(m);
    }
}

/// A source of morphisms for a search, with a heuristic weight of a morphism type.  By
/// default it offers no morphisms and weighs every type with `Weight::default()`.
pub trait MorphBase<Morph: Morphism + Clone, Weight: Eq + Ord + Default> {
    /// The morphisms that apply under the halo `halo_key`.
    fn get_morphisms(&self, halo_key: &TypeTerm) -> (r: Vec<MorphismInstance<Morph>>)
        default_ensures
            r@.len() == 0,
    {
        Vec::new()
    }

    /// The estimated weight of a morphism of type `t`.
    fn heuristic(&self, t: &MorphismType) -> (r: Weight)
        default_ensures
            call_ensures(Weight::default, (), r),
    {
        Weight::default()
    }
}

/// Trying one morphism from `src` in a new scope of `g`: the scope declares the variables
/// of the morphism's context under fresh names (`sigmas` maps them there), the variables of
/// `g` are shifted past them, and where the shifted source is a subtype of the morphism's
/// normalized source, the scope binds what the unification found; the result is the halo,
/// that scope and `sigmas`, or `Some(None)` where the morphism does not apply.  `None` where
/// a normalization or the unification exceeds the step budget or a count exceeds the
/// machine's integers.
#[verifier::opaque]
pub open spec fn spec_try_morphism<M: Morphism>(g: CtxV, src: TermV, m: M) -> Option<Option<(TermV, CtxV, Map<u64, TermV>)>> {
    let child = spec_enter(g);
    let mc = m.spec_ctx();
    let sigmas = spec_shift_subst(child.gamma.len(), mc.gamma.len());
    let shifted = spec_shift_vars(child, mc.gamma);
    if g.sub_count >= u64::MAX || ctx_size(child) + mc.gamma.len() >= u64::MAX || ctx_n_variables(shifted) > u64::MAX {
        None
    } else {
        match (spec_normalize(m.spec_type().src, STEP_BUDGET as nat), spec_normalize(m.spec_type().dst, STEP_BUDGET as nat)) {
            (Some(ms), Some(_)) => {
                let m_src = spec_apply(ms, sigmas);
                let from_parent = match shifted.parent {
                    Some(p) => spec_shift_subst(shifted.gamma.len(), ctx_n_variables(*p)),
                    None => Map::empty(),
                };
                match spec_subtype_unify(spec_apply(src, from_parent), m_src, STEP_BUDGET as nat) {
                    None => None,
                    Some(Err(_)) => Some(None),
                    Some(Ok((psi, sigma))) => Some(Some((psi, CtxV { sigma: shifted.sigma.union_prefer_right(sigma), ..shifted }, sigmas))),
                }
            },
            _ => None,
        }
    }
}

/// The morphisms of `ms` that apply to `src`, each tried in a new scope of `g` (whose
/// count of sub-scopes grows by one each time): the context after all, and for each
/// morphism that applies, in order, the halo, its scope, its substitution `sigmas` and
/// its index.
pub open spec fn spec_enum_from<M: Morphism>(g: CtxV, src: TermV, ms: Seq<M>) -> Option<(CtxV, Seq<(TermV, CtxV, Map<u64, TermV>, int)>)>
    decreases ms.len(),
{
    if ms.len() == 0 {
        Some((g, Seq::empty()))
    } else {
        match spec_enum_from(g, src, ms.drop_last()) {
            None => None,
            Some((g1, found)) => match spec_try_morphism(g1, src, ms.last()) {
                None => None,
                Some(r) => Some((
                    CtxV { sub_count: (g1.sub_count + 1) as u64, ..g1 },
                    match r {
                        Some((psi, c, s)) => found.push((psi, c, s, ms.len() - 1)),
                        None => found,
                    },
                )),
            },
        }
    }
}

/// The number of variables declared in the context of `m`.
fn morph_ctx_len<M: Morphism>(m: &M) -> (r: u64)
    ensures
        r == m.spec_ctx().gamma.len(),
{
    let mctx = m.ctx();
    let g = mctx.get_gamma();
    proof { crate::term::lemma_entries_view(g@); }
    g.len() as u64
}

/// Whether a new scope of `gamma`'s parent, `gamma`, can declare `extra` more variables.
fn room_for(gamma: &ContextPtr, extra: u64) -> (r: bool)
    ensures
        r == (ctx_size(gamma@) + extra < u64::MAX),
{
    match gamma.0.try_size() {
        Some(sz) => match sz.checked_add(extra) {
            Some(t) => t < u64::MAX,
            None => false,
        },
        None => false,
    }
}

/// Tries one morphism from `src_type` in a new scope of `g0`; `None` where
/// `spec_try_morphism` is `None`.
fn try_morphism<M: Morphism>(g0: &mut ContextPtr, src_type: &TypeTerm, m: &M) -> (r: Option<Option<(TypeTerm, ContextPtr, HashMapSubst)>>)
    ensures
        match spec_try_morphism(old(g0)@, src_type@, *m) {
            None => r is None,
            Some(x) => final(g0)@ == (CtxV { sub_count: (old(g0)@.sub_count + 1) as u64, ..old(g0)@ }) && match x {
                None => r matches Some(None),
                Some((psi, c, s)) => r matches Some(Some((p2, c2, s2))) && p2@ == psi && c2@ == c && subst_view(s2) == s,
            },
        },
{
    proof { reveal(spec_try_morphism); }
    if !g0.can_scope() {
        return None;
    }
    let mt = m.get_type();
    let m_src0 = match mt.src_type.try_normalize() {
        Some(t) => t,
        None => {
            return None;
        },
    };
    let m_dst0 = match mt.dst_type.try_normalize() {
        Some(t) => t,
        None => {
            return None;
        },
    };
    let mut gamma = g0.scope();
    let mlen = morph_ctx_len(m);
    if !room_for(&gamma, mlen) {
        return None;
    }
    let mctx = m.ctx();
    let sigmas = gamma.shift_variables(&mctx);
    if gamma.0.try_n_variables().is_none() {
        return None;
    }
    let mut m_src = m_src0;
    m_src.apply_subst(&sigmas);
    let mut m_dst = m_dst0;
    m_dst.apply_subst(&sigmas);
    let mut src = src_type.copy();
    let from_parent = gamma.shift_from_parent();
    src.apply_subst(&from_parent);
    match subtype_unify_f(&src, &m_src, STEP_BUDGET) {
        Some(Ok((psi, sigma))) => {
            gamma.bind_all(&sigma);
            Some(Some((psi, gamma, sigmas)))
        },
        Some(Err(_)) => Some(None),
        None => None,
    }
}

/// A morphism applies at most once: the base's enumeration finds at most as many as
/// there are morphisms.
pub proof fn lemma_enum_from_len<M: Morphism>(g: CtxV, src: TermV, ms: Seq<M>)
    ensures
        spec_enum_from(g, src, ms) matches Some((_, found)) ==> found.len() <= ms.len(),
    decreases ms.len(),
{
    if ms.len() > 0 {
        lemma_enum_from_len(g, src, ms.drop_last());
    }
}

proof fn lemma_enum_from_none<M: Morphism>(g: CtxV, src: TermV, ms: Seq<M>, i: int)
    requires
        0 <= i <= ms.len(),
        spec_enum_from(g, src, ms.subrange(0, i)) is None,
    ensures
        spec_enum_from(g, src, ms) is None,
    decreases ms.len() - i,
{
    if i < ms.len() {
        let p = ms.subrange(0, i + 1);
        assert(p.drop_last() =~= ms.subrange(0, i));
        lemma_enum_from_none(g, src, ms, i + 1);
    } else {
        assert(ms.subrange(0, i) =~= ms);
    }
}

impl<M: Morphism + Clone> MorphismBase<M> {
    /// The morphisms of the base that apply to `src_type`: each is tried in a new scope of
    /// `g0`, and for each that applies the result holds the halo, the scope (with what the
    /// unification bound), the substitution that moved the morphism's variables into the
    /// scope, and a clone of the morphism.
    pub fn enum_morphisms_from(&self, g0: &mut ContextPtr, src_type: &TypeTerm) -> (r: Vec<(TypeTerm, ContextPtr, HashMapSubst, M)>)
        requires
            spec_enum_from(old(g0)@, src_type@, self.spec_morphisms()) is Some,
        ensures
            spec_enum_from(old(g0)@, src_type@, self.spec_morphisms()) matches Some((g, found))
                && final(g0)@ == g
                && r@.len() == found.len()
                && forall|i: int| 0 <= i < found.len() ==> {
                    &&& (#[trigger] r@[i]).0@ == found[i].0
                    &&& r@[i].1@ == found[i].1
                    &&& subst_view(r@[i].2) == found[i].2
                    &&& 0 <= found[i].3 < self.spec_morphisms().len()
                    &&& cloned(self.spec_morphisms()[found[i].3], r@[i].3)
                },
    {
        match self.try_enum_morphisms_from(g0, src_type) {
            Some(v) => v,
            None => Vec::new(),
        }
    }

    /// As `enum_morphisms_from`, with `None` where `spec_enum_from` is `None`.
    pub fn try_enum_morphisms_from(&self, g0: &mut ContextPtr, src_type: &TypeTerm) -> (r: Option<Vec<(TypeTerm, ContextPtr, HashMapSubst, M)>>)
        ensures
            match spec_enum_from(old(g0)@, src_type@, self.spec_morphisms()) {
                None => r is None,
                Some((g, found)) => r matches Some(v)
                    && final(g0)@ == g
                    && v@.len() == found.len()
                    && forall|i: int| 0 <= i < found.len() ==> {
                        &&& (#[trigger] v@[i]).0@ == found[i].0
                        &&& v@[i].1@ == found[i].1
                        &&& subst_view(v@[i].2) == found[i].2
                        &&& 0 <= found[i].3 < self.spec_morphisms().len()
                        &&& cloned(self.spec_morphisms()[found[i].3], v@[i].3)
                    },
            },
    {
        let ghost ms = self.morphisms@;
        let ghost g00 = g0@;
        let mut out: Vec<(TypeTerm, ContextPtr, HashMapSubst, M)> = Vec::new();
        let mut i: usize = 0;
        assert(ms.subrange(0, 0) =~= Seq::<M>::empty());
        while i < self.morphisms.len()
            invariant
                i <= self.morphisms.len(),
                ms == self.morphisms@,
                ms == self.spec_morphisms(),
                g00 == old(g0)@,
                spec_enum_from(g00, src_type@, ms.subrange(0, i as int)) matches Some((g, found))
                    && g0@ == g
                    && out@.len() == found.len()
                    && forall|j: int| 0 <= j < found.len() ==> {
                        &&& (#[trigger] out@[j]).0@ == found[j].0
                        &&& out@[j].1@ == found[j].1
                        &&& subst_view(out@[j].2) == found[j].2
                        &&& 0 <= found[j].3 < i
                        &&& cloned(ms[found[j].3], out@[j].3)
                    },
            decreases self.morphisms.len() - i,
        {
            proof {
                assert(ms.subrange(0, i + 1).drop_last() =~= ms.subrange(0, i as int));
                assert(ms.subrange(0, i + 1).last() == ms[i as int]);
            }
            let m = &self.morphisms[i];
            let ghost gb = g0@;
            match try_morphism(g0, src_type, m) {
                Some(Some((psi, c, s))) => {
                    let mc = m.clone();
                    out.push((psi, c, s, mc));
                },
                Some(None) => {},
                None => {
                    proof {
                        assert(spec_try_morphism(gb, src_type@, ms[i as int]) is None);
                        assert(spec_enum_from(g00, src_type@, ms.subrange(0, i + 1)) is None);
                        lemma_enum_from_none(g00, src_type@, ms, i + 1);
                    }
                    return None;
                },
            }
            i += 1;
        }
        assert(ms.subrange(0, ms.len() as int) =~= ms);
        Some(out)
    }
}

//------------------------------------------------------------------
// Decomposition of morphism types
//------------------------------------------------------------------

/// A morphism type taken apart into the morphism types of its components.
pub enum DecomposedMorphismType {
    SeqMap { item: MorphismType },
    StructMap { members: Vec<(String, MorphismType)> },
    EnumMap { variants: Vec<(String, MorphismType)> },
}

/// Model of a decomposed morphism type.
pub enum DecompV {
    SeqMap { item: MorphTypeV },
    StructMap { members: Seq<(Seq<char>, MorphTypeV)> },
    EnumMap { variants: Seq<(Seq<char>, MorphTypeV)> },
}

pub open spec fn named_types_view(s: Seq<(String, MorphismType)>) -> Seq<(Seq<char>, MorphTypeV)> {
    s.map_values(|p: (String, MorphismType)| (p.0@, p.1@))
}

impl View for DecomposedMorphismType {
    type V = DecompV;

    open spec fn view(&self) -> DecompV {
        match self {
            DecomposedMorphismType::SeqMap { item } => DecompV::SeqMap { item: item@ },
            DecomposedMorphismType::StructMap { members } => DecompV::StructMap { members: named_types_view(members@) },
            DecomposedMorphismType::EnumMap { variants } => DecompV::EnumMap { variants: named_types_view(variants@) },
        }
    }
}

/// The morphism type from `a` to `b`, with no variables and no bounds.
pub open spec fn plain_morph(a: TermV, b: TermV) -> MorphTypeV {
    MorphTypeV { gamma: Seq::empty(), bounds: Seq::empty(), src: a, dst: b }
}

/// For each member of the destination, the member of the source with the same name:
/// the morphism types between them, and whether any of them is not the identity; `None`
/// where a member of the destination is missing in the source.
pub open spec fn spec_match_members(lm: Seq<FieldV>, rm: Seq<FieldV>) -> Option<(Seq<(Seq<char>, MorphTypeV)>, bool)>
    decreases rm.len(),
{
    if rm.len() == 0 {
        Some((Seq::empty(), false))
    } else {
        let r = rm[rm.len() - 1];
        match (spec_match_members(lm, rm.drop_last()), spec_find_field(lm, r.symbol)) {
            (Some((ms, nec)), Some(i)) => Some((ms.push((r.symbol, plain_morph(lm[i].ty, r.ty))), nec || lm[i].ty != r.ty)),
            _ => None,
        }
    }
}

/// A morphism type from `src` to `dst` taken apart: the ladders above the floors must
/// agree (the source's is a subtype of the destination's, where the destination has
/// one), and then two sequences map their items and two structs their members (each
/// member of the destination from the source's member of that name, where some member
/// changes); the result holds the source's ladder above the floor.  `Some(None)` where
/// the types do not decompose; `None` where the unification exceeds the step budget or
/// both floors are enums, which are not handled.
pub open spec fn spec_decomposition(src: TermV, dst: TermV) -> Option<Option<(TermV, DecompV)>> {
    let (src_psi, src_floor) = spec_floor(src);
    let (dst_psi, dst_floor) = spec_floor(dst);
    let agree = if spec_is_empty(dst_psi) {
        Some(true)
    } else {
        match spec_subtype_unify(src_psi, dst_psi, STEP_BUDGET as nat) {
            None => None,
            Some(Ok(_)) => Some(true),
            Some(Err(_)) => Some(false),
        }
    };
    match agree {
        None => None,
        Some(false) => Some(None),
        Some(true) => match (src_floor, dst_floor) {
            (TermV::Struct { members: lm, .. }, TermV::Struct { members: rm, .. }) => match spec_match_members(lm, rm) {
                Some((ms, true)) => Some(Some((src_psi, DecompV::StructMap { members: ms }))),
                _ => Some(None),
            },
            (TermV::Sequence { item: li, .. }, TermV::Sequence { item: ri, .. }) =>
                Some(Some((src_psi, DecompV::SeqMap { item: plain_morph(*li, *ri) }))),
            (TermV::Enum { .. }, TermV::Enum { .. }) => None,
            _ => Some(None),
        },
    }
}

/// Matches the members of the destination with those of the source.
fn match_members(lm: &Vec<StructMember>, rm: &Vec<StructMember>) -> (r: Option<(Vec<(String, MorphismType)>, bool)>)
    ensures
        match spec_match_members(members_view(lm@), members_view(rm@)) {
            Some((ms, nec)) => r matches Some((v, n)) && named_types_view(v@) == ms && n == nec,
            None => r is None,
        },
{
    let ghost lv = members_view(lm@);
    let ghost rv = members_view(rm@);
    proof {
        lemma_members_view(lm@);
        lemma_members_view(rm@);
    }
    let mut out: Vec<(String, MorphismType)> = Vec::new();
    let mut necessary = false;
    let mut i: usize = 0;
    assert(rv.subrange(0, 0) =~= Seq::<FieldV>::empty());
    assert(named_types_view(out@) =~= Seq::<(Seq<char>, MorphTypeV)>::empty());
    while i < rm.len()
        invariant
            i <= rm.len(),
            lv == members_view(lm@),
            rv == members_view(rm@),
            lv.len() == lm.len(),
            rv.len() == rm.len(),
            forall|j: int| 0 <= j < lm.len() ==> #[trigger] lv[j] == lm@[j]@,
            forall|j: int| 0 <= j < rm.len() ==> #[trigger] rv[j] == rm@[j]@,
            spec_match_members(lv, rv.subrange(0, i as int)) == Some((named_types_view(out@), necessary)),
        decreases rm.len() - i,
    {
        let ghost p = rv.subrange(0, i + 1);
        assert(p.drop_last() =~= rv.subrange(0, i as int));
        assert(p.last() == rv[i as int]);
        proof { lemma_find_field(lv, rv[i as int].symbol); }
        match find_member(lm, &rm[i].symbol) {
            None => {
                proof { lemma_match_members_none(lv, rv, i as int + 1); }
                return None;
            },
            Some(k) => {
                let mt = MorphismType {
                    gamma: Vec::new(),
                    bounds: Vec::new(),
                    src_type: lm[k].ty.copy(),
                    dst_type: rm[i].ty.copy(),
                };
                assert(crate::term::entries_view(mt.gamma@) =~= Seq::<crate::term::EntryV>::empty());
                assert(crate::term::pairs_view(mt.bounds@) =~= Seq::<crate::term::PairV>::empty());
                let differs = !lm[k].ty.same(&rm[i].ty);
                necessary = necessary || differs;
                let ghost o0 = out@;
                out.push((rm[i].symbol.clone(), mt));
                assert(named_types_view(out@) =~= named_types_view(o0).push((rv[i as int].symbol, plain_morph(lv[k as int].ty, rv[i as int].ty))));
            },
        }
        i += 1;
    }
    assert(rv.subrange(0, rm.len() as int) =~= rv);
    Some((out, necessary))
}

/// Once a member is missing, the whole match fails.
proof fn lemma_match_members_none(lm: Seq<FieldV>, rm: Seq<FieldV>, k: int)
    requires
        0 <= k <= rm.len(),
        spec_match_members(lm, rm.subrange(0, k)) is None,
    ensures
        spec_match_members(lm, rm) is None,
    decreases rm.len() - k,
{
    if k < rm.len() {
        assert(rm.subrange(0, k + 1).drop_last() =~= rm.subrange(0, k));
        lemma_match_members_none(lm, rm, k + 1);
    } else {
        assert(rm.subrange(0, k) =~= rm);
    }
}

impl<M: Morphism + Clone> MorphismBase<M> {
    /// Takes the morphism type from `src_type` to `dst_type` apart into the morphism types
    /// of its items or members, where both floors are sequences or structs.
    pub fn morphism_decomposition(&self, src_type: &TypeTerm, dst_type: &TypeTerm) -> (r: Option<(TypeTerm, DecomposedMorphismType)>)
        requires
            spec_decomposition(src_type@, dst_type@) is Some,
        ensures
            match spec_decomposition(src_type@, dst_type@).unwrap() {
                Some((psi, d)) => r matches Some((p2, d2)) && p2@ == psi && d2@ == d,
                None => r is None,
            },
    {
        match self.try_morphism_decomposition(src_type, dst_type) {
            Some(x) => x,
            None => None,
        }
    }

    /// As `morphism_decomposition`, with `None` where `spec_decomposition` is `None` (two
    /// enum floors, or a unification beyond the step budget).
    pub fn try_morphism_decomposition(&self, src_type: &TypeTerm, dst_type: &TypeTerm) -> (r: Option<Option<(TypeTerm, DecomposedMorphismType)>>)
        ensures
            match spec_decomposition(src_type@, dst_type@) {
                Some(Some((psi, d))) => r matches Some(Some((p2, d2))) && p2@ == psi && d2@ == d,
                Some(None) => r matches Some(None),
                None => r is None,
            },
    {
        let (src_psi, src_floor) = src_type.get_floor_type();
        let (dst_psi, dst_floor) = dst_type.get_floor_type();
        if !dst_psi.is_empty() {
            match subtype_unify_f(&src_psi, &dst_psi, STEP_BUDGET) {
                Some(Ok(_)) => {},
                Some(Err(_)) => {
                    return Some(None);
                },
                None => {
                    return None;
                },
            }
        }
        proof {
            lemma_view_variant(&src_floor);
            lemma_view_variant(&dst_floor);
        }
        match (src_floor, dst_floor) {
            (TypeTerm::Struct { members: lm, .. }, TypeTerm::Struct { members: rm, .. }) => {
                match match_members(&lm, &rm) {
                    Some((ms, true)) => Some(Some((src_psi, DecomposedMorphismType::StructMap { members: ms }))),
                    _ => Some(None),
                }
            },
            (TypeTerm::Sequence { item: li, .. }, TypeTerm::Sequence { item: ri, .. }) => {
                let mt = MorphismType { gamma: Vec::new(), bounds: Vec::new(), src_type: *li, dst_type: *ri };
                assert(crate::term::entries_view(mt.gamma@) =~= Seq::<crate::term::EntryV>::empty());
                assert(crate::term::pairs_view(mt.bounds@) =~= Seq::<crate::term::PairV>::empty());
                Some(Some((src_psi, DecomposedMorphismType::SeqMap { item: mt })))
            },
            (TypeTerm::Enum { .. }, TypeTerm::Enum { .. }) => None,
            _ => Some(None),
        }
    }
}

/// Trying one morphism of the base as a pattern for a decomposition from `src`, in a new
/// scope of `g` as `spec_try_morphism` sets it up: the halo and decomposition of the
/// morphism type from the shifted source to the morphism's source, with the scope and
/// `sigmas`; `Some(None)` where it does not decompose.
#[verifier::opaque]
pub open spec fn spec_try_complex<M: Morphism>(g: CtxV, src: TermV, m: M) -> Option<Option<(TermV, CtxV, Map<u64, TermV>, DecompV)>> {
    let child = spec_enter(g);
    let mc = m.spec_ctx();
    let sigmas = spec_shift_subst(child.gamma.len(), mc.gamma.len());
    let shifted = spec_shift_vars(child, mc.gamma);
    if g.sub_count >= u64::MAX || ctx_size(child) + mc.gamma.len() >= u64::MAX || ctx_n_variables(shifted) > u64::MAX {
        None
    } else {
        match spec_normalize(m.spec_type().src, STEP_BUDGET as nat) {
            Some(ms) => {
                let m_src = spec_apply(ms, sigmas);
                let from_parent = match shifted.parent {
                    Some(p) => spec_shift_subst(shifted.gamma.len(), ctx_n_variables(*p)),
                    None => Map::empty(),
                };
                match spec_decomposition(spec_apply(src, from_parent), m_src) {
                    None => None,
                    Some(None) => Some(None),
                    Some(Some((psi, d))) => Some(Some((psi, shifted, sigmas, d))),
                }
            },
            None => None,
        }
    }
}

/// The decompositions that the morphisms of `ms` give from `src`, each in a new scope of
/// `g`: the context after all, and the halo, scope, substitution and decomposition of
/// each morphism that gives one, in order.
pub open spec fn spec_enum_complex<M: Morphism>(g: CtxV, src: TermV, ms: Seq<M>) -> Option<(CtxV, Seq<(TermV, CtxV, Map<u64, TermV>, DecompV)>)>
    decreases ms.len(),
{
    if ms.len() == 0 {
        Some((g, Seq::empty()))
    } else {
        match spec_enum_complex(g, src, ms.drop_last()) {
            None => None,
            Some((g1, found)) => match spec_try_complex(g1, src, ms.last()) {
                None => None,
                Some(r) => Some((
                    CtxV { sub_count: (g1.sub_count + 1) as u64, ..g1 },
                    match r {
                        Some(x) => found.push(x),
                        None => found,
                    },
                )),
            },
        }
    }
}

impl<M: Morphism + Clone> MorphismBase<M> {
    /// Tries one morphism as a pattern for a decomposition; `None` where
    /// `spec_try_complex` is `None`.
    fn try_complex(&self, g0: &mut ContextPtr, src_type: &TypeTerm, m: &M) -> (r: Option<Option<(TypeTerm, ContextPtr, HashMapSubst, DecomposedMorphismType)>>)
        ensures
            match spec_try_complex(old(g0)@, src_type@, *m) {
                None => r is None,
                Some(x) => final(g0)@ == (CtxV { sub_count: (old(g0)@.sub_count + 1) as u64, ..old(g0)@ }) && match x {
                    None => r matches Some(None),
                    Some((psi, c, s, d)) => r matches Some(Some((p2, c2, s2, d2))) && p2@ == psi && c2@ == c && subst_view(s2) == s && d2@ == d,
                },
            },
    {
        proof { reveal(spec_try_complex); }
        if !g0.can_scope() {
            return None;
        }
        let mut src = src_type.copy();
        let mt = m.get_type();
        let mut m_src = match mt.src_type.try_normalize() {
            Some(t) => t,
            None => {
                return None;
            },
        };
        let mut gamma = g0.scope();
        let mlen = morph_ctx_len(m);
        if !room_for(&gamma, mlen) {
            return None;
        }
        let mctx = m.ctx();
        let sigmas = gamma.shift_variables(&mctx);
        if gamma.0.try_n_variables().is_none() {
            return None;
        }
        m_src.apply_subst(&sigmas);
        let from_parent = gamma.shift_from_parent();
        src.apply_subst(&from_parent);
        match self.try_morphism_decomposition(&src, &m_src) {
            Some(Some((psi, d))) => Some(Some((psi, gamma, sigmas, d))),
            Some(None) => Some(None),
            None => None,
        }
    }

    /// The decompositions that the morphisms of the base give from `src_type`: each
    /// morphism's source type is the pattern that the source is taken apart against, in a
    /// new scope of `g0`.
    pub fn enum_complex_morphisms(&self, g0: &mut ContextPtr, src_type: &TypeTerm) -> (r: Vec<(TypeTerm, ContextPtr, HashMapSubst, DecomposedMorphismType)>)
        requires
            spec_enum_complex(old(g0)@, src_type@, self.spec_morphisms()) is Some,
        ensures
            spec_enum_complex(old(g0)@, src_type@, self.spec_morphisms()) matches Some((g, found))
                && final(g0)@ == g
                && r@.len() == found.len()
                && forall|i: int| 0 <= i < found.len() ==> {
                    &&& (#[trigger] r@[i]).0@ == found[i].0
                    &&& r@[i].1@ == found[i].1
                    &&& subst_view(r@[i].2) == found[i].2
                    &&& r@[i].3@ == found[i].3
                },
    {
        match self.try_enum_complex_morphisms(g0, src_type) {
            Some(v) => v,
            None => Vec::new(),
        }
    }

    /// As `enum_complex_morphisms`, with `None` where `spec_enum_complex` is `None`.
    pub fn try_enum_complex_morphisms(&self, g0: &mut ContextPtr, src_type: &TypeTerm) -> (r: Option<Vec<(TypeTerm, ContextPtr, HashMapSubst, DecomposedMorphismType)>>)
        ensures
            match spec_enum_complex(old(g0)@, src_type@, self.spec_morphisms()) {
                None => r is None,
                Some((g, found)) => r matches Some(v)
                    && final(g0)@ == g
                    && v@.len() == found.len()
                    && forall|i: int| 0 <= i < found.len() ==> {
                        &&& (#[trigger] v@[i]).0@ == found[i].0
                        &&& v@[i].1@ == found[i].1
                        &&& subst_view(v@[i].2) == found[i].2
                        &&& v@[i].3@ == found[i].3
                    },
            },
    {
        let ghost ms = self.morphisms@;
        let ghost g00 = g0@;
        let mut out: Vec<(TypeTerm, ContextPtr, HashMapSubst, DecomposedMorphismType)> = Vec::new();
        let mut i: usize = 0;
        assert(ms.subrange(0, 0) =~= Seq::<M>::empty());
        while i < self.morphisms.len()
            invariant
                i <= self.morphisms.len(),
                ms == self.morphisms@,
                ms == self.spec_morphisms(),
                g00 == old(g0)@,
                spec_enum_complex(g00, src_type@, ms.subrange(0, i as int)) matches Some((g, found))
                    && g0@ == g
                    && out@.len() == found.len()
                    && forall|j: int| 0 <= j < found.len() ==> {
                        &&& (#[trigger] out@[j]).0@ == found[j].0
                        &&& out@[j].1@ == found[j].1
                        &&& subst_view(out@[j].2) == found[j].2
                        &&& out@[j].3@ == found[j].3
                    },
            decreases self.morphisms.len() - i,
        {
            proof {
                assert(ms.subrange(0, i + 1).drop_last() =~= ms.subrange(0, i as int));
                assert(ms.subrange(0, i + 1).last() == ms[i as int]);
            }
            let ghost gb = g0@;
            match self.try_complex(g0, src_type, &self.morphisms[i]) {
                Some(Some(x)) => {
                    out.push(x);
                },
                Some(None) => {},
                None => {
                    proof {
                        assert(spec_try_complex(gb, src_type@, ms[i as int]) is None);
                        assert(spec_enum_complex(g00, src_type@, ms.subrange(0, i + 1)) is None);
                        lemma_enum_complex_none(g00, src_type@, ms, i + 1);
                    }
                    return None;
                },
            }
            i += 1;
        }
        assert(ms.subrange(0, ms.len() as int) =~= ms);
        Some(out)
    }
}

/// Each morphism gives at most one decomposition.
pub proof fn lemma_enum_complex_len<M: Morphism>(g: CtxV, src: TermV, ms: Seq<M>)
    ensures
        spec_enum_complex(g, src, ms) matches Some((_, found)) ==> found.len() <= ms.len(),
    decreases ms.len(),
{
    if ms.len() > 0 {
        lemma_enum_complex_len(g, src, ms.drop_last());
    }
}

proof fn lemma_enum_complex_none<M: Morphism>(g: CtxV, src: TermV, ms: Seq<M>, i: int)
    requires
        0 <= i <= ms.len(),
        spec_enum_complex(g, src, ms.subrange(0, i)) is None,
    ensures
        spec_enum_complex(g, src, ms) is None,
    decreases ms.len() - i,
{
    if i < ms.len() {
        let p = ms.subrange(0, i + 1);
        assert(p.drop_last() =~= ms.subrange(0, i));
        lemma_enum_complex_none(g, src, ms, i + 1);
    } else {
        assert(ms.subrange(0, i) =~= ms);
    }
}

//------------------------------------------------------------------
// Comparing decompositions
//------------------------------------------------------------------

/// Whether every binding of `a` is a binding of `b`.
fn subst_included(a: &HashMapSubst, b: &HashMapSubst) -> (r: bool)
    ensures
        r == (forall|x: u64| #[trigger] a@.contains_key(x) ==> b@.contains_key(x) && b@[x]@ == a@[x]@),
{
    broadcast use vstd::std_specs::hash::group_hash_axioms;
    let ghost v = vstd::std_specs::hash::spec_hash_map_iter(a).remaining();
    let ghost mut done: Set<u64> = Set::empty();
    let mut ok = true;
    for kv in it: a.iter()
        invariant
            v == vstd::std_specs::hash::spec_hash_map_iter(a).remaining(),
            it.seq() == v,
            forall|x: u64| #[trigger] done.contains(x) ==> a@.contains_key(x),
            ok == (forall|x: u64| #[trigger] done.contains(x) ==> b@.contains_key(x) && b@[x]@ == a@[x]@),
            forall|j: int| 0 <= j < it.index() ==> #[trigger] done.contains(*v[j].0),
    {
        let (k, t) = kv;
        proof {
            assert(v.contains((k, t)));
            assert(a@.contains_key(*k) && a@[*k] == *t);
        }
        let here = match b.get(k) {
            Some(u) => u.same(t),
            None => false,
        };
        proof {
            let d0 = done;
            done = done.insert(*k);
            if ok && here {
                assert forall|x: u64| #[trigger] done.contains(x) implies b@.contains_key(x) && b@[x]@ == a@[x]@ by {
                    if x != *k {
                        assert(d0.contains(x));
                    }
                }
            }
            if !here {
                assert(done.contains(*k));
            }
            if !ok {
                let y = choose|y: u64| d0.contains(y) && !(b@.contains_key(y) && b@[y]@ == a@[y]@);
                assert(done.contains(y));
            }
        }
        ok = ok && here;
    }
    proof {
        assert forall|x: u64| a@.contains_key(x) implies #[trigger] done.contains(x) by {
            assert(v.contains((&x, &a@[x])));
            let j = choose|j: int| 0 <= j < v.len() && v[j] == (&x, &a@[x]);
            assert(done.contains(*v[j].0));
        }
        if ok {
            assert forall|x: u64| #[trigger] a@.contains_key(x) implies b@.contains_key(x) && b@[x]@ == a@[x]@ by {
                assert(done.contains(x));
            }
        } else {
            let y = choose|y: u64| done.contains(y) && !(b@.contains_key(y) && b@[y]@ == a@[y]@);
            assert(a@.contains_key(y));
        }
    }
    ok
}

/// Whether two substitutions have the same bindings.
pub fn same_subst(a: &HashMapSubst, b: &HashMapSubst) -> (r: bool)
    ensures
        r == (subst_view(*a) == subst_view(*b)),
{
    let ab = subst_included(a, b);
    let ba = subst_included(b, a);
    proof {
        if ab && ba {
            assert(subst_view(*a) =~= subst_view(*b));
        }
        if subst_view(*a) == subst_view(*b) {
            assert forall|x: u64| #[trigger] a@.contains_key(x) implies b@.contains_key(x) && b@[x]@ == a@[x]@ by {
                assert(subst_view(*a).contains_key(x));
                assert(subst_view(*a)[x] == a@[x]@);
                assert(subst_view(*b)[x] == b@[x]@);
            }
            assert forall|x: u64| #[trigger] b@.contains_key(x) implies a@.contains_key(x) && a@[x]@ == b@[x]@ by {
                assert(subst_view(*b).contains_key(x));
                assert(subst_view(*a)[x] == a@[x]@);
                assert(subst_view(*b)[x] == b@[x]@);
            }
        }
    }
    ab && ba
}

/// Whether two vectors of named morphism types are the same.
fn same_named_types(a: &Vec<(String, MorphismType)>, b: &Vec<(String, MorphismType)>) -> (r: bool)
    ensures
        r == (named_types_view(a@) == named_types_view(b@)),
{
    if a.len() != b.len() {
        proof { assert(named_types_view(a@).len() != named_types_view(b@).len()); }
        return false;
    }
    let mut i: usize = 0;
    while i < a.len()
        invariant
            i <= a.len(),
            a.len() == b.len(),
            forall|j: int| 0 <= j < i ==> (#[trigger] named_types_view(a@)[j]) == named_types_view(b@)[j],
        decreases a.len() - i,
    {
        let same_sym = a[i].0 == b[i].0;
        if !same_sym || !a[i].1.same(&b[i].1) {
            proof {
                assert(named_types_view(a@)[i as int] != named_types_view(b@)[i as int]);
            }
            return false;
        }
        i += 1;
    }
    assert(named_types_view(a@) =~= named_types_view(b@));
    true
}

/// Whether the decomposition converts nothing: each component's morphism type has its
/// source as destination.
pub open spec fn spec_decomp_trivial(d: DecompV) -> bool {
    match d {
        DecompV::SeqMap { item } => item.src == item.dst,
        DecompV::StructMap { members } => forall|i: int| 0 <= i < members.len() ==> (#[trigger] members[i]).1.src == members[i].1.dst,
        DecompV::EnumMap { variants } => forall|i: int| 0 <= i < variants.len() ==> (#[trigger] variants[i]).1.src == variants[i].1.dst,
    }
}

fn all_trivial(v: &Vec<(String, MorphismType)>) -> (r: bool)
    ensures
        r == (forall|i: int| 0 <= i < named_types_view(v@).len() ==> (#[trigger] named_types_view(v@)[i]).1.src == named_types_view(v@)[i].1.dst),
{
    let mut i: usize = 0;
    while i < v.len()
        invariant
            i <= v.len(),
            forall|j: int| 0 <= j < i ==> (#[trigger] named_types_view(v@)[j]).1.src == named_types_view(v@)[j].1.dst,
        decreases v.len() - i,
    {
        if !v[i].1.src_type.same(&v[i].1.dst_type) {
            assert(named_types_view(v@)[i as int].1.src != named_types_view(v@)[i as int].1.dst);
            return false;
        }
        i += 1;
    }
    true
}

impl DecomposedMorphismType {
    /// Whether the decomposition converts nothing.
    pub fn is_trivial(&self) -> (r: bool)
        ensures
            r == spec_decomp_trivial(self@),
    {
        match self {
            DecomposedMorphismType::SeqMap { item } => item.src_type.same(&item.dst_type),
            DecomposedMorphismType::StructMap { members } => all_trivial(members),
            DecomposedMorphismType::EnumMap { variants } => all_trivial(variants),
        }
    }

    /// Whether two decompositions are the same.
    pub fn same(&self, other: &DecomposedMorphismType) -> (r: bool)
        ensures
            r == (self@ == other@),
    {
        match (self, other) {
            (DecomposedMorphismType::SeqMap { item: a }, DecomposedMorphismType::SeqMap { item: b }) => a.same(b),
            (DecomposedMorphismType::StructMap { members: a }, DecomposedMorphismType::StructMap { members: b }) => same_named_types(a, b),
            (DecomposedMorphismType::EnumMap { variants: a }, DecomposedMorphismType::EnumMap { variants: b }) => same_named_types(a, b),
            _ => false,
        }
    }

    /// A copy of the decomposition.
    pub fn copy(&self) -> (r: DecomposedMorphismType)
        ensures
            r@ == self@,
    {
        match self {
            DecomposedMorphismType::SeqMap { item } => DecomposedMorphismType::SeqMap { item: item.copy() },
            DecomposedMorphismType::StructMap { members } => DecomposedMorphismType::StructMap { members: copy_named_types(members) },
            DecomposedMorphismType::EnumMap { variants } => DecomposedMorphismType::EnumMap { variants: copy_named_types(variants) },
        }
    }
}

pub(crate) fn copy_named_types(v: &Vec<(String, MorphismType)>) -> (r: Vec<(String, MorphismType)>)
    ensures
        named_types_view(r@) == named_types_view(v@),
{
    let mut r: Vec<(String, MorphismType)> = Vec::new();
    let mut i: usize = 0;
    while i < v.len()
        invariant
            i <= v.len(),
            r.len() == i,
            forall|j: int| 0 <= j < i ==> (#[trigger] r@[j]).0@ == v@[j].0@ && r@[j].1@ == v@[j].1@,
        decreases v.len() - i,
    {
        r.push((v[i].0.clone(), v[i].1.copy()));
        i += 1;
    }
    assert(named_types_view(r@) =~= named_types_view(v@));
    r
}

} // verus!
