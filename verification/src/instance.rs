//! Morphism instances: how the morphisms of a base are put together into one conversion.

use vstd::prelude::*;
use std::collections::HashMap;
use vstd::std_specs::iter::IteratorSpec;
use crate::term::{TypeTerm, TermV, FieldV, StructMember, EntryV, PairV, members_view, opt_view, lemma_members_view_push, lemma_opt_view, copy_opt};
use crate::morphism::{MorphismType, MorphTypeV, spec_normalize_morph, spec_strip_common};
use crate::substitution::{HashMapSubst, subst_view, Substitution, spec_apply, spec_apply_pairs};
use crate::context::{Context, ContextPtr, CtxV, ctx_subst};
use crate::numfmt::spec_nat_str;
use crate::constraint_system::{STEP_BUDGET, copy_subst};

verus! {

broadcast use vstd::std_specs::hash::group_hash_axioms;

/// A morphism that a base offers: a conversion of a given type.
pub trait Morphism: Sized {
    /// The type of the morphism.
    spec fn spec_type(&self) -> MorphTypeV;

    /// The context that the morphism's type is written in.
    spec fn spec_ctx(&self) -> CtxV;

    /// The context that the morphism's type is written in.
    fn ctx(&self) -> (r: ContextPtr)
        ensures
            r@ == self.spec_ctx(),
    ;

    /// The type of the morphism.
    fn get_type(&self) -> (r: MorphismType)
        ensures
            r@ == self.spec_type(),
    ;

    /// The weight of the morphism.
    fn weight(&self) -> u64 {
        1
    }
}

/// A morphism known by its type alone.
impl Morphism for MorphismType {
    open spec fn spec_type(&self) -> MorphTypeV {
        self@
    }

    open spec fn spec_ctx(&self) -> CtxV {
        CtxV {
            name: seq!['C', 't', 'x', ' '] + spec_nat_str(0),
            sub_count: 0,
            names: Seq::empty(),
            gamma: Seq::empty(),
            sigma: Map::empty(),
            parent: None,
        }
    }

    fn ctx(&self) -> (r: ContextPtr) {
        Context::new(0)
    }

    fn get_type(&self) -> (r: MorphismType) {
        self.copy()
    }
}

/// How a conversion is made: the identity, a morphism of the base under a substitution,
/// a conversion under a common top rung `psi`, a conversion specialized to a context, a
/// chain of conversions, or a conversion of each item, member or variant.
#[verifier::reject_recursive_types(M)]
pub enum MorphismInstance<M: Morphism> {
    Id { tau: TypeTerm },
    Primitive { sigmas: HashMapSubst, m: M },
    Sub { psi: TypeTerm, m: Box<MorphismInstance<M>> },
    Specialize { gamma: ContextPtr, m: Box<MorphismInstance<M>> },
    Chain { path: Vec<MorphismInstance<M>> },
    MapSeq { seq_repr: Option<Box<TypeTerm>>, item_morph: Box<MorphismInstance<M>> },
    MapStruct { struct_repr: Option<Box<TypeTerm>>, member_morph: Vec<(String, MorphismInstance<M>)> },
    MapEnum { enum_repr: Option<Box<TypeTerm>>, variant_morph: Vec<(String, MorphismInstance<M>)> },
}

//------------------------------------------------------------------
// The type of an instance
//------------------------------------------------------------------

/// A morphism type with a substitution applied to its bounds, source and destination.
pub open spec fn spec_apply_morph(t: MorphTypeV, s: Map<u64, TermV>) -> MorphTypeV {
    MorphTypeV {
        gamma: t.gamma,
        bounds: spec_apply_pairs(t.bounds, s),
        src: spec_apply(t.src, s),
        dst: spec_apply(t.dst, s),
    }
}

/// The type of an instance, normalized; `None` where an empty chain is reached (the
/// instance has no type) or the normalization budget runs out.
/// The model of an optional morphism type.
pub open spec fn opt_morph_view(o: Option<MorphismType>) -> Option<MorphTypeV> {
    match o {
        Some(t) => Some(t@),
        None => None,
    }
}

pub open spec fn spec_inst_type<M: Morphism>(i: MorphismInstance<M>) -> Option<MorphTypeV>
    decreases i, 1nat,
{
    match spec_raw_type(i) {
        Some(t) => spec_normalize_morph(t, STEP_BUDGET as nat),
        None => None,
    }
}

/// The type of an instance before normalization.
pub open spec fn spec_raw_type<M: Morphism>(i: MorphismInstance<M>) -> Option<MorphTypeV>
    decreases i, 0nat,
{
    match i {
        MorphismInstance::Id { tau } => Some(MorphTypeV { gamma: Seq::empty(), bounds: Seq::empty(), src: tau@, dst: tau@ }),
        MorphismInstance::Primitive { sigmas, m } => Some(spec_apply_morph(m.spec_type(), subst_view(sigmas))),
        MorphismInstance::Sub { psi, m } => match spec_inst_type(*m) {
            Some(t) => Some(MorphTypeV {
                gamma: Seq::empty(),
                bounds: t.bounds,
                src: TermV::Ladder(seq![psi@, t.src]),
                dst: TermV::Ladder(seq![psi@, t.dst]),
            }),
            None => None,
        },
        MorphismInstance::Specialize { gamma, m } => match spec_inst_type(*m) {
            Some(t) => Some(spec_apply_morph(t, ctx_subst(gamma@))),
            None => None,
        },
        MorphismInstance::Chain { path } => if path@.len() > 0 {
            match (spec_inst_type(path@[0]), spec_inst_type(path@[path@.len() - 1])) {
                (Some(first), Some(last)) => Some(MorphTypeV { gamma: Seq::empty(), bounds: Seq::empty(), src: first.src, dst: last.dst }),
                _ => None,
            }
        } else {
            None
        },
        MorphismInstance::MapSeq { seq_repr, item_morph } => match spec_inst_type(*item_morph) {
            Some(t) => Some(MorphTypeV {
                gamma: Seq::empty(),
                bounds: t.bounds,
                src: TermV::Sequence { repr: opt_view(seq_repr), item: Box::new(t.src) },
                dst: TermV::Sequence { repr: opt_view(seq_repr), item: Box::new(t.dst) },
            }),
            None => None,
        },
        MorphismInstance::MapStruct { struct_repr, member_morph } => match spec_member_types(member_morph@) {
            Some((s, d)) => Some(MorphTypeV {
                gamma: Seq::empty(),
                bounds: Seq::empty(),
                src: TermV::Struct { repr: opt_view(struct_repr), members: s },
                dst: TermV::Struct { repr: opt_view(struct_repr), members: d },
            }),
            None => None,
        },
        MorphismInstance::MapEnum { enum_repr, variant_morph } => match spec_member_types(variant_morph@) {
            Some((s, d)) => Some(MorphTypeV {
                gamma: Seq::empty(),
                bounds: Seq::empty(),
                src: TermV::Struct { repr: opt_view(enum_repr), members: s },
                dst: TermV::Struct { repr: opt_view(enum_repr), members: d },
            }),
            None => None,
        },
    }
}

/// The members of the source and of the destination type of a map over named
/// components: each name with the source (destination) type of its conversion.
pub open spec fn spec_member_types<M: Morphism>(ms: Seq<(String, MorphismInstance<M>)>) -> Option<(Seq<FieldV>, Seq<FieldV>)>
    decreases ms, 0nat,
{
    if ms.len() == 0 {
        Some((Seq::empty(), Seq::empty()))
    } else {
        match (spec_member_types(ms.subrange(0, ms.len() - 1)), spec_inst_type(ms[ms.len() - 1].1)) {
            (Some((s, d)), Some(t)) => Some((
                s.push(FieldV { symbol: ms[ms.len() - 1].0@, ty: t.src }),
                d.push(FieldV { symbol: ms[ms.len() - 1].0@, ty: t.dst }),
            )),
            _ => None,
        }
    }
}

proof fn lemma_two_terms(a: TypeTerm, b: TypeTerm)
    ensures
        crate::term::terms_view(seq![a, b]) == seq![a@, b@],
{
    crate::term::lemma_terms_view(seq![a, b]);
    assert(crate::term::terms_view(seq![a, b]) =~= seq![a@, b@]);
}

/// The members of the source and of the destination type of a map over named components.
fn member_types<M: Morphism>(v: &Vec<(String, MorphismInstance<M>)>) -> (r: Option<(Vec<StructMember>, Vec<StructMember>)>)
    ensures
        spec_member_types(v@) == match r {
            Some((a, b)) => Some((members_view(a@), members_view(b@))),
            None => None,
        },
    decreases v, 0nat,
{
    let mut srcs: Vec<StructMember> = Vec::new();
    let mut dsts: Vec<StructMember> = Vec::new();
    assert(members_view(srcs@) =~= Seq::<FieldV>::empty());
    assert(members_view(dsts@) =~= Seq::<FieldV>::empty());
    assert(v@.subrange(0, 0) =~= Seq::<(String, MorphismInstance<M>)>::empty());
    let mut i: usize = 0;
    while i < v.len()
        invariant
            i <= v.len(),
            spec_member_types(v@.subrange(0, i as int)) == Some((members_view(srcs@), members_view(dsts@))),
        decreases v.len() - i,
    {
        let ghost p = v@.subrange(0, i + 1);
        assert(p.subrange(0, i as int) =~= v@.subrange(0, i as int));
        assert(p[i as int] == v@[i as int]);
        let t = match v[i].1.try_get_type() {
            Some(t) => t,
            None => {
                proof { lemma_member_types_none(v@, i + 1); }
                return None;
            },
        };
        let ms = StructMember { symbol: v[i].0.clone(), ty: t.src_type };
        let md = StructMember { symbol: v[i].0.clone(), ty: t.dst_type };
        proof {
            lemma_members_view_push(srcs@, ms);
            lemma_members_view_push(dsts@, md);
        }
        srcs.push(ms);
        dsts.push(md);
        i += 1;
    }
    assert(v@.subrange(0, v.len() as int) =~= v@);
    Some((srcs, dsts))
}

proof fn lemma_member_types_none<M: Morphism>(ms: Seq<(String, MorphismInstance<M>)>, i: int)
    requires
        0 <= i <= ms.len(),
        spec_member_types(ms.subrange(0, i)) is None,
    ensures
        spec_member_types(ms) is None,
    decreases ms.len() - i,
{
    if i < ms.len() {
        let p = ms.subrange(0, i + 1);
        assert(p.subrange(0, i) =~= ms.subrange(0, i));
        lemma_member_types_none(ms, i + 1);
    } else {
        assert(ms.subrange(0, i) =~= ms);
    }
}

impl<M: Morphism> MorphismInstance<M> {
    /// The type of the instance before normalization; `None` where `spec_raw_type` is.
    fn raw_type(&self) -> (r: Option<MorphismType>)
        ensures
            spec_raw_type(*self) == opt_morph_view(r),
        decreases self, 0nat,
    {
        match self {
            MorphismInstance::Id { tau } => {
                let r = MorphismType { gamma: Vec::new(), bounds: Vec::new(), src_type: tau.copy(), dst_type: tau.copy() };
                assert(crate::term::entries_view(r.gamma@) =~= Seq::<EntryV>::empty());
                assert(crate::term::pairs_view(r.bounds@) =~= Seq::<PairV>::empty());
                Some(r)
            },
            MorphismInstance::Primitive { sigmas, m } => Some(m.get_type().apply_subst(sigmas)),
            MorphismInstance::Sub { psi, m } => {
                let t = match m.try_get_type() {
                    Some(t) => t,
                    None => {
                        return None;
                    },
                };
                let p1 = psi.copy();
                let p2 = psi.copy();
                proof {
                    lemma_two_terms(p1, t.src_type);
                    lemma_two_terms(p2, t.dst_type);
                }
                let mut src: Vec<TypeTerm> = Vec::new();
                src.push(p1);
                src.push(t.src_type);
                let mut dst: Vec<TypeTerm> = Vec::new();
                dst.push(p2);
                dst.push(t.dst_type);
                assert(src@ =~= seq![p1, t.src_type]);
                assert(dst@ =~= seq![p2, t.dst_type]);
                let r = MorphismType { gamma: Vec::new(), bounds: t.bounds, src_type: TypeTerm::Ladder(src), dst_type: TypeTerm::Ladder(dst) };
                assert(crate::term::entries_view(r.gamma@) =~= Seq::<EntryV>::empty());
                Some(r)
            },
            MorphismInstance::Specialize { gamma, m } => match m.try_get_type() {
                Some(t) => Some(t.apply_subst(gamma)),
                None => None,
            },
            MorphismInstance::Chain { path } => {
                if path.len() == 0 {
                    return None;
                }
                let first = match path[0].try_get_type() {
                    Some(t) => t,
                    None => {
                        return None;
                    },
                };
                let last = match path[path.len() - 1].try_get_type() {
                    Some(t) => t,
                    None => {
                        return None;
                    },
                };
                let r = MorphismType { gamma: Vec::new(), bounds: Vec::new(), src_type: first.src_type, dst_type: last.dst_type };
                assert(crate::term::entries_view(r.gamma@) =~= Seq::<EntryV>::empty());
                assert(crate::term::pairs_view(r.bounds@) =~= Seq::<PairV>::empty());
                Some(r)
            },
            MorphismInstance::MapSeq { seq_repr, item_morph } => {
                let t = match item_morph.try_get_type() {
                    Some(t) => t,
                    None => {
                        return None;
                    },
                };
                let r1 = copy_opt(seq_repr);
                let r2 = copy_opt(seq_repr);
                proof {
                    lemma_opt_view(r1);
                    lemma_opt_view(*seq_repr);
                }
                let r = MorphismType {
                    gamma: Vec::new(),
                    bounds: t.bounds,
                    src_type: TypeTerm::Sequence { seq_repr: r1, item: Box::new(t.src_type) },
                    dst_type: TypeTerm::Sequence { seq_repr: r2, item: Box::new(t.dst_type) },
                };
                assert(crate::term::entries_view(r.gamma@) =~= Seq::<EntryV>::empty());
                Some(r)
            },
            MorphismInstance::MapStruct { struct_repr, member_morph } => {
                let (srcs, dsts) = match member_types(member_morph) {
                    Some(x) => x,
                    None => {
                        return None;
                    },
                };
                let r = MorphismType {
                    gamma: Vec::new(),
                    bounds: Vec::new(),
                    src_type: TypeTerm::Struct { struct_repr: copy_opt(struct_repr), members: srcs },
                    dst_type: TypeTerm::Struct { struct_repr: copy_opt(struct_repr), members: dsts },
                };
                assert(crate::term::entries_view(r.gamma@) =~= Seq::<EntryV>::empty());
                assert(crate::term::pairs_view(r.bounds@) =~= Seq::<PairV>::empty());
                Some(r)
            },
            MorphismInstance::MapEnum { enum_repr, variant_morph } => {
                let (srcs, dsts) = match member_types(variant_morph) {
                    Some(x) => x,
                    None => {
                        return None;
                    },
                };
                let r = MorphismType {
                    gamma: Vec::new(),
                    bounds: Vec::new(),
                    src_type: TypeTerm::Struct { struct_repr: copy_opt(enum_repr), members: srcs },
                    dst_type: TypeTerm::Struct { struct_repr: copy_opt(enum_repr), members: dsts },
                };
                assert(crate::term::entries_view(r.gamma@) =~= Seq::<EntryV>::empty());
                assert(crate::term::pairs_view(r.bounds@) =~= Seq::<PairV>::empty());
                Some(r)
            },
        }
    }

    /// The type of the instance, normalized; `None` where `spec_inst_type` is `None`.
    pub fn try_get_type(&self) -> (r: Option<MorphismType>)
        ensures
            spec_inst_type(*self) == opt_morph_view(r),
        decreases self, 1nat,
    {
        match self.raw_type() {
            Some(raw) => raw.try_normalize(),
            None => None,
        }
    }

    /// The type of the instance, normalized: source and destination of the conversion
    /// it makes.
    pub fn get_type(&self) -> (r: MorphismType)
        requires
            spec_inst_type(*self) is Some,
        ensures
            spec_inst_type(*self) == Some(r@),
    {
        match self.try_get_type() {
            Some(t) => t,
            None => MorphismType { gamma: Vec::new(), bounds: Vec::new(), src_type: TypeTerm::unit(), dst_type: TypeTerm::unit() },
        }
    }

    /// The type of the instance with the rungs that source and destination share removed.
    pub fn get_action_type(&self) -> (r: MorphismType)
        requires
            spec_inst_type(*self) is Some,
            spec_strip_common(spec_inst_type(*self).unwrap().src, spec_inst_type(*self).unwrap().dst, STEP_BUDGET as nat) is Some,
        ensures
            spec_strip_common(spec_inst_type(*self).unwrap().src, spec_inst_type(*self).unwrap().dst, STEP_BUDGET as nat) == Some((r@.src, r@.dst)),
            r@.gamma == spec_inst_type(*self).unwrap().gamma,
            r@.bounds == spec_inst_type(*self).unwrap().bounds,
    {
        self.get_type().strip_common_rungs()
    }
}

//------------------------------------------------------------------
// Weight
//------------------------------------------------------------------

/// The weight of an instance: a morphism of the base weighs 10, a map over a sequence 15
/// more than its item's conversion, the other instances what their parts weigh together.
pub open spec fn spec_weight<M: Morphism>(i: MorphismInstance<M>) -> nat
    decreases i, 1nat,
{
    match i {
        MorphismInstance::Id { .. } => 0,
        MorphismInstance::Primitive { .. } => 10,
        MorphismInstance::Sub { m, .. } => spec_weight(*m),
        MorphismInstance::Specialize { m, .. } => spec_weight(*m),
        MorphismInstance::Chain { path } => spec_weights(path@),
        MorphismInstance::MapSeq { item_morph, .. } => spec_weight(*item_morph) + 15,
        MorphismInstance::MapStruct { member_morph, .. } => spec_member_weights(member_morph@),
        MorphismInstance::MapEnum { variant_morph, .. } => spec_member_weights(variant_morph@),
    }
}

/// The sum of the weights of instances.
pub open spec fn spec_weights<M: Morphism>(s: Seq<MorphismInstance<M>>) -> nat
    decreases s, 0nat,
{
    if s.len() == 0 {
        0
    } else {
        spec_weights(s.subrange(0, s.len() - 1)) + spec_weight(s[s.len() - 1])
    }
}

/// The sum of the weights of the conversions of named components.
pub open spec fn spec_member_weights<M: Morphism>(s: Seq<(String, MorphismInstance<M>)>) -> nat
    decreases s, 0nat,
{
    if s.len() == 0 {
        0
    } else {
        spec_member_weights(s.subrange(0, s.len() - 1)) + spec_weight(s[s.len() - 1].1)
    }
}

proof fn lemma_weights_prefix<M: Morphism>(s: Seq<MorphismInstance<M>>, i: int)
    requires
        0 <= i <= s.len(),
    ensures
        spec_weights(s.subrange(0, i)) <= spec_weights(s),
        i < s.len() ==> spec_weights(s.subrange(0, i + 1)) == spec_weights(s.subrange(0, i)) + spec_weight(s[i]),
    decreases s.len() - i,
{
    if i < s.len() {
        lemma_weights_prefix(s, i + 1);
        let p = s.subrange(0, i + 1);
        assert(p.subrange(0, i) =~= s.subrange(0, i));
        assert(p[i] == s[i]);
    } else {
        assert(s.subrange(0, i) =~= s);
    }
}

proof fn lemma_member_weights_prefix<M: Morphism>(s: Seq<(String, MorphismInstance<M>)>, i: int)
    requires
        0 <= i <= s.len(),
    ensures
        spec_member_weights(s.subrange(0, i)) <= spec_member_weights(s),
        i < s.len() ==> spec_member_weights(s.subrange(0, i + 1)) == spec_member_weights(s.subrange(0, i)) + spec_weight(s[i].1),
    decreases s.len() - i,
{
    if i < s.len() {
        lemma_member_weights_prefix(s, i + 1);
        let p = s.subrange(0, i + 1);
        assert(p.subrange(0, i) =~= s.subrange(0, i));
        assert(p[i] == s[i]);
    } else {
        assert(s.subrange(0, i) =~= s);
    }
}

fn try_weights_sum<M: Morphism>(v: &Vec<MorphismInstance<M>>) -> (r: Option<u64>)
    ensures
        match r {
            Some(x) => x == spec_weights(v@),
            None => spec_weights(v@) > u64::MAX,
        },
    decreases v, 0nat,
{
    let mut total: u64 = 0;
    let mut i: usize = 0;
    assert(v@.subrange(0, 0) =~= Seq::<MorphismInstance<M>>::empty());
    while i < v.len()
        invariant
            i <= v.len(),
            total == spec_weights(v@.subrange(0, i as int)),
        decreases v.len() - i,
    {
        proof {
            lemma_weights_prefix(v@, i as int);
            lemma_weights_prefix(v@, i + 1);
        }
        let w = match v[i].try_get_weight() {
            Some(w) => w,
            None => {
                return None;
            },
        };
        total = match total.checked_add(w) {
            Some(t) => t,
            None => {
                return None;
            },
        };
        i += 1;
    }
    assert(v@.subrange(0, v.len() as int) =~= v@);
    Some(total)
}

fn try_member_weights_sum<M: Morphism>(v: &Vec<(String, MorphismInstance<M>)>) -> (r: Option<u64>)
    ensures
        match r {
            Some(x) => x == spec_member_weights(v@),
            None => spec_member_weights(v@) > u64::MAX,
        },
    decreases v, 0nat,
{
    let mut total: u64 = 0;
    let mut i: usize = 0;
    assert(v@.subrange(0, 0) =~= Seq::<(String, MorphismInstance<M>)>::empty());
    while i < v.len()
        invariant
            i <= v.len(),
            total == spec_member_weights(v@.subrange(0, i as int)),
        decreases v.len() - i,
    {
        proof {
            lemma_member_weights_prefix(v@, i as int);
            lemma_member_weights_prefix(v@, i + 1);
        }
        let w = match v[i].1.try_get_weight() {
            Some(w) => w,
            None => {
                return None;
            },
        };
        total = match total.checked_add(w) {
            Some(t) => t,
            None => {
                return None;
            },
        };
        i += 1;
    }
    assert(v@.subrange(0, v.len() as int) =~= v@);
    Some(total)
}

fn weights_sum<M: Morphism>(v: &Vec<MorphismInstance<M>>) -> (r: u64)
    requires
        spec_weights(v@) <= u64::MAX,
    ensures
        r == spec_weights(v@),
    decreases v, 0nat,
{
    let mut total: u64 = 0;
    let mut i: usize = 0;
    assert(v@.subrange(0, 0) =~= Seq::<MorphismInstance<M>>::empty());
    while i < v.len()
        invariant
            i <= v.len(),
            spec_weights(v@) <= u64::MAX,
            total == spec_weights(v@.subrange(0, i as int)),
        decreases v.len() - i,
    {
        proof {
            lemma_weights_prefix(v@, i as int);
            lemma_weights_prefix(v@, i + 1);
        }
        let w = v[i].get_weight();
        total = total + w;
        i += 1;
    }
    assert(v@.subrange(0, v.len() as int) =~= v@);
    total
}

fn member_weights_sum<M: Morphism>(v: &Vec<(String, MorphismInstance<M>)>) -> (r: u64)
    requires
        spec_member_weights(v@) <= u64::MAX,
    ensures
        r == spec_member_weights(v@),
    decreases v, 0nat,
{
    let mut total: u64 = 0;
    let mut i: usize = 0;
    assert(v@.subrange(0, 0) =~= Seq::<(String, MorphismInstance<M>)>::empty());
    while i < v.len()
        invariant
            i <= v.len(),
            spec_member_weights(v@) <= u64::MAX,
            total == spec_member_weights(v@.subrange(0, i as int)),
        decreases v.len() - i,
    {
        proof {
            lemma_member_weights_prefix(v@, i as int);
            lemma_member_weights_prefix(v@, i + 1);
        }
        let w = v[i].1.get_weight();
        total = total + w;
        i += 1;
    }
    assert(v@.subrange(0, v.len() as int) =~= v@);
    total
}

//------------------------------------------------------------------
// Substitution
//------------------------------------------------------------------

/// The substitution that an instance was found under: that of a morphism of the base,
/// those of the parts of a chain or a struct map merged in order (a later one wins);
/// `None` for specializations and enum maps, which have none.
pub open spec fn spec_subst<M: Morphism>(i: MorphismInstance<M>) -> Option<Map<u64, TermV>>
    decreases i, 1nat,
{
    match i {
        MorphismInstance::Id { .. } => Some(Map::empty()),
        MorphismInstance::Primitive { sigmas, .. } => Some(subst_view(sigmas)),
        MorphismInstance::Sub { m, .. } => spec_subst(*m),
        MorphismInstance::Specialize { .. } => None,
        MorphismInstance::Chain { path } => spec_substs(path@),
        MorphismInstance::MapSeq { item_morph, .. } => spec_subst(*item_morph),
        MorphismInstance::MapStruct { member_morph, .. } => spec_member_substs(member_morph@),
        MorphismInstance::MapEnum { .. } => None,
    }
}

/// The substitutions of instances merged in order.
pub open spec fn spec_substs<M: Morphism>(s: Seq<MorphismInstance<M>>) -> Option<Map<u64, TermV>>
    decreases s, 0nat,
{
    if s.len() == 0 {
        Some(Map::empty())
    } else {
        match (spec_substs(s.subrange(0, s.len() - 1)), spec_subst(s[s.len() - 1])) {
            (Some(a), Some(b)) => Some(a.union_prefer_right(b)),
            _ => None,
        }
    }
}

/// The substitutions of the conversions of named components merged in order.
pub open spec fn spec_member_substs<M: Morphism>(s: Seq<(String, MorphismInstance<M>)>) -> Option<Map<u64, TermV>>
    decreases s, 0nat,
{
    if s.len() == 0 {
        Some(Map::empty())
    } else {
        match (spec_member_substs(s.subrange(0, s.len() - 1)), spec_subst(s[s.len() - 1].1)) {
            (Some(a), Some(b)) => Some(a.union_prefer_right(b)),
            _ => None,
        }
    }
}

proof fn lemma_substs_prefix<M: Morphism>(s: Seq<MorphismInstance<M>>, i: int)
    requires
        0 <= i <= s.len(),
        spec_substs(s) is Some,
    ensures
        spec_substs(s.subrange(0, i)) is Some,
        i < s.len() ==> spec_subst(s[i]) is Some,
    decreases s.len() - i,
{
    if i < s.len() {
        lemma_substs_prefix(s, i + 1);
        let p = s.subrange(0, i + 1);
        assert(p.subrange(0, i) =~= s.subrange(0, i));
        assert(p[i] == s[i]);
    } else {
        assert(s.subrange(0, i) =~= s);
    }
}

proof fn lemma_member_substs_prefix<M: Morphism>(s: Seq<(String, MorphismInstance<M>)>, i: int)
    requires
        0 <= i <= s.len(),
        spec_member_substs(s) is Some,
    ensures
        spec_member_substs(s.subrange(0, i)) is Some,
        i < s.len() ==> spec_subst(s[i].1) is Some,
    decreases s.len() - i,
{
    if i < s.len() {
        lemma_member_substs_prefix(s, i + 1);
        let p = s.subrange(0, i + 1);
        assert(p.subrange(0, i) =~= s.subrange(0, i));
        assert(p[i] == s[i]);
    } else {
        assert(s.subrange(0, i) =~= s);
    }
}

/// Adds the bindings of `src` to `dst`, replacing those of the same variables.
pub fn append_subst(dst: &mut HashMapSubst, src: &HashMapSubst)
    ensures
        subst_view(*final(dst)) == subst_view(*old(dst)).union_prefer_right(subst_view(*src)),
{
    let ghost v = vstd::std_specs::hash::spec_hash_map_iter(src).remaining();
    let ghost d0 = *dst;
    let ghost mut done: Set<u64> = Set::empty();
    for kv in it: src.iter()
        invariant
            v == vstd::std_specs::hash::spec_hash_map_iter(src).remaining(),
            it.seq() == v,
            forall|x: u64| #[trigger] done.contains(x) ==> src@.contains_key(x) && dst@.contains_key(x) && dst@[x]@ == src@[x]@,
            forall|x: u64| !done.contains(x) ==> (#[trigger] dst@.contains_key(x) == d0@.contains_key(x))
                && (d0@.contains_key(x) ==> dst@[x]@ == d0@[x]@),
            forall|j: int| 0 <= j < it.index() ==> #[trigger] done.contains(*v[j].0),
    {
        let (k, t) = kv;
        let t2 = t.copy();
        dst.insert(*k, t2);
        proof { done = done.insert(*k); }
    }
    proof {
        assert forall|x: u64| src@.contains_key(x) implies #[trigger] done.contains(x) by {
            assert(v.contains((&x, &src@[x])));
            let j = choose|j: int| 0 <= j < v.len() && v[j] == (&x, &src@[x]);
            assert(done.contains(*v[j].0));
        }
        assert(subst_view(*dst) =~= subst_view(d0).union_prefer_right(subst_view(*src)));
    }
}

fn substs_merged<M: Morphism>(v: &Vec<MorphismInstance<M>>) -> (r: HashMapSubst)
    requires
        spec_substs(v@) is Some,
    ensures
        spec_substs(v@) == Some(subst_view(r)),
    decreases v, 0nat,
{
    let mut sigma: HashMapSubst = HashMap::new();
    let mut i: usize = 0;
    assert(v@.subrange(0, 0) =~= Seq::<MorphismInstance<M>>::empty());
    assert(subst_view(sigma) =~= Map::<u64, TermV>::empty());
    while i < v.len()
        invariant
            i <= v.len(),
            spec_substs(v@) is Some,
            spec_substs(v@.subrange(0, i as int)) == Some(subst_view(sigma)),
        decreases v.len() - i,
    {
        proof {
            lemma_substs_prefix(v@, i as int);
            lemma_substs_prefix(v@, i + 1);
        }
        let ghost p = v@.subrange(0, i + 1);
        assert(p.subrange(0, i as int) =~= v@.subrange(0, i as int));
        assert(p[i as int] == v@[i as int]);
        let s = v[i].get_subst();
        append_subst(&mut sigma, &s);
        i += 1;
    }
    assert(v@.subrange(0, v.len() as int) =~= v@);
    sigma
}

fn member_substs_merged<M: Morphism>(v: &Vec<(String, MorphismInstance<M>)>) -> (r: HashMapSubst)
    requires
        spec_member_substs(v@) is Some,
    ensures
        spec_member_substs(v@) == Some(subst_view(r)),
    decreases v, 0nat,
{
    let mut sigma: HashMapSubst = HashMap::new();
    let mut i: usize = 0;
    assert(v@.subrange(0, 0) =~= Seq::<(String, MorphismInstance<M>)>::empty());
    assert(subst_view(sigma) =~= Map::<u64, TermV>::empty());
    while i < v.len()
        invariant
            i <= v.len(),
            spec_member_substs(v@) is Some,
            spec_member_substs(v@.subrange(0, i as int)) == Some(subst_view(sigma)),
        decreases v.len() - i,
    {
        proof {
            lemma_member_substs_prefix(v@, i as int);
            lemma_member_substs_prefix(v@, i + 1);
        }
        let ghost p = v@.subrange(0, i + 1);
        assert(p.subrange(0, i as int) =~= v@.subrange(0, i as int));
        assert(p[i as int] == v@[i as int]);
        let s = v[i].1.get_subst();
        append_subst(&mut sigma, &s);
        i += 1;
    }
    assert(v@.subrange(0, v.len() as int) =~= v@);
    sigma
}

impl<M: Morphism> MorphismInstance<M> {
    /// The weight of the instance.
    pub fn get_weight(&self) -> (r: u64)
        requires
            spec_weight(*self) <= u64::MAX,
        ensures
            r == spec_weight(*self),
        decreases self, 1nat,
    {
        match self {
            MorphismInstance::Id { .. } => 0,
            MorphismInstance::Primitive { .. } => 10,
            MorphismInstance::Sub { m, .. } => m.get_weight(),
            MorphismInstance::Specialize { m, .. } => m.get_weight(),
            MorphismInstance::Chain { path } => weights_sum(path),
            MorphismInstance::MapSeq { item_morph, .. } => item_morph.get_weight() + 15,
            MorphismInstance::MapStruct { member_morph, .. } => member_weights_sum(member_morph),
            MorphismInstance::MapEnum { variant_morph, .. } => member_weights_sum(variant_morph),
        }
    }

    /// The weight of the instance; `None` where it exceeds a `u64`.
    pub fn try_get_weight(&self) -> (r: Option<u64>)
        ensures
            match r {
                Some(x) => x == spec_weight(*self),
                None => spec_weight(*self) > u64::MAX,
            },
        decreases self, 1nat,
    {
        match self {
            MorphismInstance::Id { .. } => Some(0),
            MorphismInstance::Primitive { .. } => Some(10),
            MorphismInstance::Sub { m, .. } => m.try_get_weight(),
            MorphismInstance::Specialize { m, .. } => m.try_get_weight(),
            MorphismInstance::Chain { path } => try_weights_sum(path),
            MorphismInstance::MapSeq { item_morph, .. } => match item_morph.try_get_weight() {
                Some(w) => w.checked_add(15),
                None => None,
            },
            MorphismInstance::MapStruct { member_morph, .. } => try_member_weights_sum(member_morph),
            MorphismInstance::MapEnum { variant_morph, .. } => try_member_weights_sum(variant_morph),
        }
    }

    /// The substitution that the instance was found under.
    pub fn get_subst(&self) -> (r: HashMapSubst)
        requires
            spec_subst(*self) is Some,
        ensures
            spec_subst(*self) == Some(subst_view(r)),
        decreases self, 1nat,
    {
        match self {
            MorphismInstance::Id { .. } => {
                let r: HashMapSubst = HashMap::new();
                assert(subst_view(r) =~= Map::<u64, TermV>::empty());
                r
            },
            MorphismInstance::Primitive { sigmas, .. } => copy_subst(sigmas),
            MorphismInstance::Sub { m, .. } => m.get_subst(),
            MorphismInstance::Specialize { .. } => {
                proof { assert(false); }
                HashMap::new()
            },
            MorphismInstance::Chain { path } => substs_merged(path),
            MorphismInstance::MapSeq { item_morph, .. } => item_morph.get_subst(),
            MorphismInstance::MapStruct { member_morph, .. } => member_substs_merged(member_morph),
            MorphismInstance::MapEnum { .. } => {
                proof { assert(false); }
                HashMap::new()
            },
        }
    }
}

//------------------------------------------------------------------
// Applying a substitution
//------------------------------------------------------------------

/// Whether a substitution can be applied to an instance: it has a type, reaches no
/// specialization, and the same holds of the parts that the application visits.
pub open spec fn spec_apply_ok<M: Morphism>(i: MorphismInstance<M>) -> bool
    decreases i, 1nat,
{
    &&& spec_inst_type(i) is Some
    &&& match i {
        MorphismInstance::Id { .. } => true,
        MorphismInstance::Primitive { .. } => true,
        MorphismInstance::Sub { m, .. } => spec_apply_ok(*m),
        MorphismInstance::Specialize { .. } => false,
        MorphismInstance::Chain { path } => spec_all_apply_ok(path@),
        MorphismInstance::MapSeq { item_morph, .. } => spec_apply_ok(*item_morph),
        MorphismInstance::MapStruct { member_morph, .. } => spec_members_apply_ok(member_morph@),
        MorphismInstance::MapEnum { variant_morph, .. } => spec_members_apply_ok(variant_morph@),
    }
}

pub open spec fn spec_all_apply_ok<M: Morphism>(s: Seq<MorphismInstance<M>>) -> bool
    decreases s, 0nat,
{
    s.len() > 0 ==> spec_all_apply_ok(s.subrange(0, s.len() - 1)) && spec_apply_ok(s[s.len() - 1])
}

pub open spec fn spec_members_apply_ok<M: Morphism>(s: Seq<(String, MorphismInstance<M>)>) -> bool
    decreases s, 0nat,
{
    s.len() > 0 ==> spec_members_apply_ok(s.subrange(0, s.len() - 1)) && spec_apply_ok(s[s.len() - 1].1)
}

/// Whether `b` is `a` with substitution `s` applied: to the type of an identity and to the
/// top rung of a conversion under one, and to the parts of the other instances; a
/// morphism of the base and its substitution stay as they are.
pub open spec fn spec_applied<M: Morphism>(a: MorphismInstance<M>, b: MorphismInstance<M>, s: Map<u64, TermV>) -> bool
    decreases a, 1nat,
{
    match (a, b) {
        (MorphismInstance::Id { tau: t1 }, MorphismInstance::Id { tau: t2 }) => t2@ == spec_apply(t1@, s),
        (MorphismInstance::Primitive { sigmas: s1, m: m1 }, MorphismInstance::Primitive { sigmas: s2, m: m2 }) =>
            s1 == s2 && m1 == m2,
        (MorphismInstance::Sub { psi: p1, m: m1 }, MorphismInstance::Sub { psi: p2, m: m2 }) =>
            p2@ == spec_apply(p1@, s) && spec_applied(*m1, *m2, s),
        (MorphismInstance::Chain { path: p1 }, MorphismInstance::Chain { path: p2 }) => spec_all_applied(p1@, p2@, s),
        (MorphismInstance::MapSeq { seq_repr: r1, item_morph: i1 }, MorphismInstance::MapSeq { seq_repr: r2, item_morph: i2 }) =>
            r1 == r2 && spec_applied(*i1, *i2, s),
        (MorphismInstance::MapStruct { struct_repr: r1, member_morph: m1 }, MorphismInstance::MapStruct { struct_repr: r2, member_morph: m2 }) =>
            r1 == r2 && spec_members_applied(m1@, m2@, s),
        (MorphismInstance::MapEnum { enum_repr: r1, variant_morph: m1 }, MorphismInstance::MapEnum { enum_repr: r2, variant_morph: m2 }) =>
            r1 == r2 && spec_members_applied(m1@, m2@, s),
        _ => false,
    }
}

pub open spec fn spec_all_applied<M: Morphism>(a: Seq<MorphismInstance<M>>, b: Seq<MorphismInstance<M>>, s: Map<u64, TermV>) -> bool
    decreases a, 0nat,
{
    &&& a.len() == b.len()
    &&& a.len() > 0 ==> spec_all_applied(a.subrange(0, a.len() - 1), b.subrange(0, b.len() - 1), s)
        && spec_applied(a[a.len() - 1], b[b.len() - 1], s)
}

pub open spec fn spec_members_applied<M: Morphism>(a: Seq<(String, MorphismInstance<M>)>, b: Seq<(String, MorphismInstance<M>)>, s: Map<u64, TermV>) -> bool
    decreases a, 0nat,
{
    &&& a.len() == b.len()
    &&& a.len() > 0 ==> spec_members_applied(a.subrange(0, a.len() - 1), b.subrange(0, b.len() - 1), s)
        && a[a.len() - 1].0 == b[b.len() - 1].0
        && spec_applied(a[a.len() - 1].1, b[b.len() - 1].1, s)
}

proof fn lemma_all_apply_ok<M: Morphism>(s: Seq<MorphismInstance<M>>, i: int)
    requires
        0 <= i < s.len(),
        spec_all_apply_ok(s),
    ensures
        spec_apply_ok(s[i]),
    decreases s.len(),
{
    if i < s.len() - 1 {
        lemma_all_apply_ok(s.subrange(0, s.len() - 1), i);
    }
}

proof fn lemma_members_apply_ok<M: Morphism>(s: Seq<(String, MorphismInstance<M>)>, i: int)
    requires
        0 <= i < s.len(),
        spec_members_apply_ok(s),
    ensures
        spec_apply_ok(s[i].1),
    decreases s.len(),
{
    if i < s.len() - 1 {
        lemma_members_apply_ok(s.subrange(0, s.len() - 1), i);
    }
}

/// Pairwise relation of two sequences, from the pairs.
proof fn lemma_all_applied<M: Morphism>(a: Seq<MorphismInstance<M>>, b: Seq<MorphismInstance<M>>, s: Map<u64, TermV>)
    requires
        a.len() == b.len(),
        forall|j: int| 0 <= j < a.len() ==> spec_applied(#[trigger] a[j], b[j], s),
    ensures
        spec_all_applied(a, b, s),
    decreases a.len(),
{
    if a.len() > 0 {
        let a0 = a.subrange(0, a.len() - 1);
        let b0 = b.subrange(0, b.len() - 1);
        assert forall|j: int| 0 <= j < a0.len() implies spec_applied(#[trigger] a0[j], b0[j], s) by {
            assert(a0[j] == a[j]);
            assert(b0[j] == b[j]);
        }
        lemma_all_applied(a0, b0, s);
    }
}

proof fn lemma_members_applied<M: Morphism>(a: Seq<(String, MorphismInstance<M>)>, b: Seq<(String, MorphismInstance<M>)>, s: Map<u64, TermV>)
    requires
        a.len() == b.len(),
        forall|j: int| 0 <= j < a.len() ==> (#[trigger] a[j]).0 == b[j].0 && spec_applied(a[j].1, b[j].1, s),
    ensures
        spec_members_applied(a, b, s),
    decreases a.len(),
{
    if a.len() > 0 {
        let a0 = a.subrange(0, a.len() - 1);
        let b0 = b.subrange(0, b.len() - 1);
        assert forall|j: int| 0 <= j < a0.len() implies (#[trigger] a0[j]).0 == b0[j].0 && spec_applied(a0[j].1, b0[j].1, s) by {
            assert(a0[j] == a[j]);
            assert(b0[j] == b[j]);
        }
        lemma_members_applied(a0, b0, s);
    }
}

fn apply_all<M: Morphism, S: Substitution>(v: &mut Vec<MorphismInstance<M>>, g: &S)
    requires
        spec_all_apply_ok(old(v)@),
    ensures
        spec_all_applied(old(v)@, final(v)@, g.subst_map()),
    decreases old(v)@, 0nat,
{
    let ghost v0 = v@;
    let mut i: usize = 0;
    while i < v.len()
        invariant
            i <= v.len(),
            v@.len() == v0.len(),
            v0 == old(v)@,
            spec_all_apply_ok(v0),
            forall|j: int| 0 <= j < i ==> spec_applied(#[trigger] v0[j], v@[j], g.subst_map()),
            forall|j: int| i <= j < v.len() ==> #[trigger] v@[j] == v0[j],
        decreases v.len() - i,
    {
        proof { lemma_all_apply_ok(v0, i as int); }
        assert(decreases_to!(v0 => v0[i as int]));
        v[i].apply_subst(g);
        i += 1;
    }
    proof { lemma_all_applied(v0, v@, g.subst_map()); }
}

fn apply_members<M: Morphism, S: Substitution>(v: &mut Vec<(String, MorphismInstance<M>)>, g: &S)
    requires
        spec_members_apply_ok(old(v)@),
    ensures
        spec_members_applied(old(v)@, final(v)@, g.subst_map()),
    decreases old(v)@, 0nat,
{
    let ghost v0 = v@;
    let mut i: usize = 0;
    while i < v.len()
        invariant
            i <= v.len(),
            v@.len() == v0.len(),
            v0 == old(v)@,
            spec_members_apply_ok(v0),
            forall|j: int| 0 <= j < i ==> (#[trigger] v0[j]).0 == v@[j].0 && spec_applied(v0[j].1, v@[j].1, g.subst_map()),
            forall|j: int| i <= j < v.len() ==> #[trigger] v@[j] == v0[j],
        decreases v.len() - i,
    {
        proof { lemma_members_apply_ok(v0, i as int); }
        assert(decreases_to!(v0 => v0[i as int].1));
        v[i].1.apply_subst(g);
        i += 1;
    }
    proof { lemma_members_applied(v0, v@, g.subst_map()); }
}

impl<M: Morphism> MorphismInstance<M> {
    /// Applies a substitution to the types in the instance: the type of an identity, the
    /// top rung of a conversion under one, and the parts of chains and maps; a morphism
    /// of the base keeps its own substitution.
    pub fn apply_subst<S: Substitution>(&mut self, g: &S)
        requires
            spec_apply_ok(*old(self)),
        ensures
            spec_applied(*old(self), *final(self), g.subst_map()),
        decreases *old(self), 1nat,
    {
        match self {
            MorphismInstance::Id { tau } => {
                tau.apply_subst(g);
            },
            MorphismInstance::Primitive { .. } => {},
            MorphismInstance::Sub { psi, m } => {
                psi.apply_subst(g);
                m.apply_subst(g);
            },
            MorphismInstance::Specialize { .. } => {
                proof { assert(false); }
            },
            MorphismInstance::Chain { path } => {
                apply_all(path, g);
            },
            MorphismInstance::MapSeq { item_morph, .. } => {
                item_morph.apply_subst(g);
            },
            MorphismInstance::MapStruct { member_morph, .. } => {
                apply_members(member_morph, g);
            },
            MorphismInstance::MapEnum { variant_morph, .. } => {
                apply_members(variant_morph, g);
            },
        }
    }
}

//------------------------------------------------------------------
// Copies and chains
//------------------------------------------------------------------

/// Whether `b` is a copy of `a`: the same instance, with each morphism of the base
/// cloned.
pub open spec fn spec_copied<M: Morphism + Clone>(a: MorphismInstance<M>, b: MorphismInstance<M>) -> bool
    decreases a, 1nat,
{
    match (a, b) {
        (MorphismInstance::Id { tau: t1 }, MorphismInstance::Id { tau: t2 }) => t2@ == t1@,
        (MorphismInstance::Primitive { sigmas: s1, m: m1 }, MorphismInstance::Primitive { sigmas: s2, m: m2 }) =>
            subst_view(s2) == subst_view(s1) && cloned(m1, m2),
        (MorphismInstance::Sub { psi: p1, m: m1 }, MorphismInstance::Sub { psi: p2, m: m2 }) =>
            p2@ == p1@ && spec_copied(*m1, *m2),
        (MorphismInstance::Specialize { gamma: g1, m: m1 }, MorphismInstance::Specialize { gamma: g2, m: m2 }) =>
            g2@ == g1@ && spec_copied(*m1, *m2),
        (MorphismInstance::Chain { path: p1 }, MorphismInstance::Chain { path: p2 }) => spec_all_copied(p1@, p2@),
        (MorphismInstance::MapSeq { seq_repr: r1, item_morph: i1 }, MorphismInstance::MapSeq { seq_repr: r2, item_morph: i2 }) =>
            opt_view(r2) == opt_view(r1) && spec_copied(*i1, *i2),
        (MorphismInstance::MapStruct { struct_repr: r1, member_morph: m1 }, MorphismInstance::MapStruct { struct_repr: r2, member_morph: m2 }) =>
            opt_view(r2) == opt_view(r1) && spec_members_copied(m1@, m2@),
        (MorphismInstance::MapEnum { enum_repr: r1, variant_morph: m1 }, MorphismInstance::MapEnum { enum_repr: r2, variant_morph: m2 }) =>
            opt_view(r2) == opt_view(r1) && spec_members_copied(m1@, m2@),
        _ => false,
    }
}

pub open spec fn spec_all_copied<M: Morphism + Clone>(a: Seq<MorphismInstance<M>>, b: Seq<MorphismInstance<M>>) -> bool
    decreases a, 0nat,
{
    &&& a.len() == b.len()
    &&& a.len() > 0 ==> spec_all_copied(a.subrange(0, a.len() - 1), b.subrange(0, b.len() - 1))
        && spec_copied(a[a.len() - 1], b[b.len() - 1])
}

pub open spec fn spec_members_copied<M: Morphism + Clone>(a: Seq<(String, MorphismInstance<M>)>, b: Seq<(String, MorphismInstance<M>)>) -> bool
    decreases a, 0nat,
{
    &&& a.len() == b.len()
    &&& a.len() > 0 ==> spec_members_copied(a.subrange(0, a.len() - 1), b.subrange(0, b.len() - 1))
        && b[b.len() - 1].0@ == a[a.len() - 1].0@
        && spec_copied(a[a.len() - 1].1, b[b.len() - 1].1)
}

fn copy_all<M: Morphism + Clone>(v: &Vec<MorphismInstance<M>>) -> (r: Vec<MorphismInstance<M>>)
    ensures
        spec_all_copied(v@, r@),
    decreases v, 0nat,
{
    let mut r: Vec<MorphismInstance<M>> = Vec::new();
    let mut i: usize = 0;
    assert(v@.subrange(0, 0) =~= Seq::<MorphismInstance<M>>::empty());
    while i < v.len()
        invariant
            i <= v.len(),
            spec_all_copied(v@.subrange(0, i as int), r@),
        decreases v.len() - i,
    {
        let x = v[i].copy();
        let ghost r0 = r@;
        r.push(x);
        assert(v@.subrange(0, i + 1).subrange(0, i as int) =~= v@.subrange(0, i as int));
        assert(r@.subrange(0, i as int) =~= r0);
        i += 1;
    }
    assert(v@.subrange(0, v.len() as int) =~= v@);
    r
}

fn copy_members<M: Morphism + Clone>(v: &Vec<(String, MorphismInstance<M>)>) -> (r: Vec<(String, MorphismInstance<M>)>)
    ensures
        spec_members_copied(v@, r@),
    decreases v, 0nat,
{
    let mut r: Vec<(String, MorphismInstance<M>)> = Vec::new();
    let mut i: usize = 0;
    assert(v@.subrange(0, 0) =~= Seq::<(String, MorphismInstance<M>)>::empty());
    while i < v.len()
        invariant
            i <= v.len(),
            spec_members_copied(v@.subrange(0, i as int), r@),
        decreases v.len() - i,
    {
        let x = (v[i].0.clone(), v[i].1.copy());
        let ghost r0 = r@;
        r.push(x);
        assert(v@.subrange(0, i + 1).subrange(0, i as int) =~= v@.subrange(0, i as int));
        assert(r@.subrange(0, i as int) =~= r0);
        i += 1;
    }
    assert(v@.subrange(0, v.len() as int) =~= v@);
    r
}

impl<M: Morphism + Clone> MorphismInstance<M> {
    /// A copy of the instance, with each morphism of the base cloned.
    pub fn copy(&self) -> (r: MorphismInstance<M>)
        ensures
            spec_copied(*self, r),
        decreases self, 1nat,
    {
        match self {
            MorphismInstance::Id { tau } => MorphismInstance::Id { tau: tau.copy() },
            MorphismInstance::Primitive { sigmas, m } => MorphismInstance::Primitive { sigmas: copy_subst(sigmas), m: m.clone() },
            MorphismInstance::Sub { psi, m } => MorphismInstance::Sub { psi: psi.copy(), m: Box::new(m.copy()) },
            MorphismInstance::Specialize { gamma, m } => MorphismInstance::Specialize { gamma: gamma.copy(), m: Box::new(m.copy()) },
            MorphismInstance::Chain { path } => MorphismInstance::Chain { path: copy_all(path) },
            MorphismInstance::MapSeq { seq_repr, item_morph } => {
                let r = copy_opt(seq_repr);
                MorphismInstance::MapSeq { seq_repr: r, item_morph: Box::new(item_morph.copy()) }
            },
            MorphismInstance::MapStruct { struct_repr, member_morph } => {
                let r = copy_opt(struct_repr);
                MorphismInstance::MapStruct { struct_repr: r, member_morph: copy_members(member_morph) }
            },
            MorphismInstance::MapEnum { enum_repr, variant_morph } => {
                let r = copy_opt(enum_repr);
                MorphismInstance::MapEnum { enum_repr: r, variant_morph: copy_members(variant_morph) }
            },
        }
    }

    /// The instance of a path of conversions: the identity on `tau` for an empty path,
    /// its one instance, or the chain of its instances.
    pub fn from_chain(tau: TypeTerm, path: &Vec<MorphismInstance<M>>) -> (r: MorphismInstance<M>)
        ensures
            path@.len() == 0 ==> (r matches MorphismInstance::Id { tau: t } && t == tau),
            path@.len() == 1 ==> spec_copied(path@[0], r),
            path@.len() > 1 ==> (r matches MorphismInstance::Chain { path: p } && spec_all_copied(path@, p@)),
    {
        if path.len() == 0 {
            MorphismInstance::Id { tau }
        } else if path.len() == 1 {
            path[0].copy()
        } else {
            MorphismInstance::Chain { path: copy_all(path) }
        }
    }
}

//------------------------------------------------------------------
// Changing substitutions
//------------------------------------------------------------------

/// The variables that a morphism type mentions in its source or destination.
pub open spec fn spec_mentioned(ty: MorphTypeV, v: u64) -> bool {
    crate::term_ops::spec_contains_var(ty.src, v as int) || crate::term_ops::spec_contains_var(ty.dst, v as int)
}

/// Substitutions that can be merged and trimmed.
pub trait SubstitutionMut: Sized {
    /// The mapping, by models.
    spec fn mut_map(&self) -> Map<u64, TermV>;

    /// Adds the bindings of `other`, replacing those of the same variables.
    fn append(&mut self, other: &Self)
        ensures
            final(self).mut_map() == old(self).mut_map().union_prefer_right(other.mut_map()),
    ;

    /// The bindings of the variables that the morphism type mentions.
    fn filter_morphtype(self, ty: &MorphismType) -> (r: Self)
        ensures
            r.mut_map() == self.mut_map().restrict(Set::new(|v: u64| spec_mentioned(ty@, v))),
    ;
}

impl SubstitutionMut for HashMapSubst {
    open spec fn mut_map(&self) -> Map<u64, TermV> {
        subst_view(*self)
    }

    fn append(&mut self, other: &Self) {
        append_subst(self, other);
    }

    fn filter_morphtype(self, ty: &MorphismType) -> (r: Self) {
        let ghost keep = Set::new(|v: u64| spec_mentioned(ty@, v));
        let mut r: HashMapSubst = HashMap::new();
        let ghost v = vstd::std_specs::hash::spec_hash_map_iter(&self).remaining();
        for kv in it: self.iter()
            invariant
                v == vstd::std_specs::hash::spec_hash_map_iter(&self).remaining(),
                it.seq() == v,
                keep == Set::new(|v: u64| spec_mentioned(ty@, v)),
                forall|x: u64| #[trigger] r@.contains_key(x) ==> self@.contains_key(x) && keep.contains(x) && r@[x]@ == self@[x]@,
                forall|j: int| 0 <= j < it.index() && keep.contains(*v[j].0) ==> #[trigger] r@.contains_key(*v[j].0),
        {
            let (k, t) = kv;
            assert(self@.contains_key(*k) && self@[*k] == *t);
            if ty.src_type.contains_var(*k) || ty.dst_type.contains_var(*k) {
                r.insert(*k, t.copy());
            }
        }
        proof {
            assert forall|x: u64| self@.contains_key(x) && keep.contains(x) implies #[trigger] r@.contains_key(x) by {
                assert(v.contains((&x, &self@[x])));
                let j = choose|j: int| 0 <= j < v.len() && v[j] == (&x, &self@[x]);
                assert(r@.contains_key(*v[j].0));
            }
            assert(subst_view(r) =~= subst_view(self).restrict(keep));
        }
        r
    }
}


//------------------------------------------------------------------
// Law: the type of a chain and of the identity
//------------------------------------------------------------------

/// A chain has the type from the source of its first instance to the destination of its
/// last, in normal form (and none where one of those has none); the identity on `tau`
/// has the type from `tau` to `tau`, in normal form.
pub proof fn law_chain_and_identity_type<M: Morphism>(c: MorphismInstance<M>)
    ensures
        c matches MorphismInstance::Chain { path: steps } ==> (steps@.len() > 0 ==> spec_inst_type(c) == match (
            spec_inst_type(steps@[0]),
            spec_inst_type(steps@[steps@.len() - 1]),
        ) {
            (Some(first), Some(last)) => spec_normalize_morph(
                MorphTypeV { gamma: Seq::empty(), bounds: Seq::empty(), src: first.src, dst: last.dst },
                STEP_BUDGET as nat,
            ),
            _ => None,
        }),
        c matches MorphismInstance::Id { tau } ==> spec_inst_type(c) == spec_normalize_morph(
            MorphTypeV { gamma: Seq::empty(), bounds: Seq::empty(), src: tau@, dst: tau@ },
            STEP_BUDGET as nat,
        ),
{
}

} // verus!
