//! Basic operations on type terms: the unit term, emptiness, variable occurrence,
//! stripping of empty rungs, interface types and floor types.

use vstd::prelude::*;
use crate::term::{copy_prefix, copy_entries, copy_pairs, lemma_terms_view_append, lemma_entries_view, TypeTerm, TermV, FieldV, StructMember, EnumVariant, term_view, terms_view, members_view, variants_view, opt_view, lemma_terms_view, lemma_terms_view_push, lemma_members_view, lemma_members_view_push, lemma_variants_view, lemma_variants_view_push};

verus! {

//------------------------------------------------------------------
// Specifications
//------------------------------------------------------------------

/// The unit type: the empty ladder.
pub open spec fn spec_unit() -> TermV {
    TermV::Ladder(Seq::empty())
}

/// A term is empty when it holds no atom other than under empty ladders.
pub open spec fn spec_is_empty(t: TermV) -> bool
    decreases t,
{
    match t {
        TermV::Id(_) | TermV::Var(_) | TermV::Num(_) | TermV::Char(_) => false,
        TermV::Univ { gamma, bounds, tau } => spec_is_empty(*tau),
        TermV::Spec(ts) | TermV::Ladder(ts) | TermV::Func(ts) => spec_all_empty(ts),
        TermV::Morph(a, b) => spec_is_empty(*a) && spec_is_empty(*b),
        TermV::Sequence { repr, item } => spec_is_empty(*item),
        TermV::Struct { repr, members } => spec_all_empty_fields(members),
        TermV::Enum { repr, variants } => spec_all_empty_fields(variants),
    }
}

pub open spec fn spec_all_empty(s: Seq<TermV>) -> bool
    decreases s,
{
    if s.len() == 0 {
        true
    } else {
        spec_all_empty(s.subrange(0, s.len() - 1)) && spec_is_empty(s[s.len() - 1])
    }
}

pub open spec fn spec_all_empty_fields(s: Seq<FieldV>) -> bool
    decreases s,
{
    if s.len() == 0 {
        true
    } else {
        spec_all_empty_fields(s.subrange(0, s.len() - 1)) && spec_is_empty(s[s.len() - 1].ty)
    }
}

/// Whether variable `v` occurs in `t`.  Under a quantifier with `n` bound variables,
/// the variable is looked up as `v + n`.
pub open spec fn spec_contains_var(t: TermV, v: int) -> bool
    decreases t,
{
    match t {
        TermV::Var(x) => x == v,
        TermV::Spec(ts) | TermV::Func(ts) | TermV::Ladder(ts) => spec_any_contains_var(ts, v),
        TermV::Morph(a, b) => spec_contains_var(*a, v) || spec_contains_var(*b, v),
        TermV::Univ { gamma, bounds, tau } => spec_contains_var(*tau, v + gamma.len()),
        TermV::Struct { repr, members } => spec_opt_contains_var(repr, v) || spec_any_field_contains_var(members, v),
        TermV::Enum { repr, variants } => spec_opt_contains_var(repr, v) || spec_any_field_contains_var(variants, v),
        TermV::Sequence { repr, item } => spec_opt_contains_var(repr, v) || spec_contains_var(*item, v),
        TermV::Num(_) | TermV::Char(_) | TermV::Id(_) => false,
    }
}

pub open spec fn spec_opt_contains_var(o: Option<Box<TermV>>, v: int) -> bool
    decreases o,
{
    match o {
        Some(b) => spec_contains_var(*b, v),
        None => false,
    }
}

pub open spec fn spec_any_contains_var(s: Seq<TermV>, v: int) -> bool
    decreases s,
{
    if s.len() == 0 {
        false
    } else {
        spec_any_contains_var(s.subrange(0, s.len() - 1), v) || spec_contains_var(s[s.len() - 1], v)
    }
}

pub open spec fn spec_any_field_contains_var(s: Seq<FieldV>, v: int) -> bool
    decreases s,
{
    if s.len() == 0 {
        false
    } else {
        spec_any_field_contains_var(s.subrange(0, s.len() - 1), v) || spec_contains_var(s[s.len() - 1].ty, v)
    }
}

/// Removes empty rungs, flattens nested ladders and unwraps singleton ladders and applications.
pub open spec fn spec_strip(t: TermV) -> TermV
    decreases t,
{
    if spec_is_empty(t) {
        spec_unit()
    } else {
        match t {
            TermV::Ladder(rungs) => {
                let rs = spec_strip_rungs(rungs);
                if rs.len() == 1 { rs[0] } else { TermV::Ladder(rs) }
            },
            TermV::Spec(args) => {
                let a = spec_strip_seq(args);
                if a.len() == 0 {
                    spec_unit()
                } else if a.len() == 1 {
                    a[0]
                } else {
                    TermV::Spec(a)
                }
            },
            TermV::Func(args) => TermV::Func(spec_strip_seq(args)),
            TermV::Morph(a, b) => TermV::Morph(Box::new(spec_strip(*a)), Box::new(spec_strip(*b))),
            TermV::Sequence { repr, item } => TermV::Sequence {
                repr: spec_strip_opt(repr),
                item: Box::new(spec_strip(*item)),
            },
            TermV::Struct { repr, members } => TermV::Struct {
                repr: spec_strip_opt(repr),
                members: spec_strip_fields(members),
            },
            TermV::Enum { repr, variants } => TermV::Enum {
                repr: spec_strip_opt(repr),
                variants: spec_strip_fields(variants),
            },
            atom => atom,
        }
    }
}

pub open spec fn spec_strip_opt(o: Option<Box<TermV>>) -> Option<Box<TermV>>
    decreases o,
{
    match o {
        Some(b) => Some(Box::new(spec_strip(*b))),
        None => None,
    }
}

/// Each term stripped.
pub open spec fn spec_strip_seq(s: Seq<TermV>) -> Seq<TermV>
    decreases s,
{
    if s.len() == 0 {
        Seq::empty()
    } else {
        spec_strip_seq(s.subrange(0, s.len() - 1)).push(spec_strip(s[s.len() - 1]))
    }
}

/// Each field's type stripped.
pub open spec fn spec_strip_fields(s: Seq<FieldV>) -> Seq<FieldV>
    decreases s,
{
    if s.len() == 0 {
        Seq::empty()
    } else {
        spec_strip_fields(s.subrange(0, s.len() - 1)).push(
            FieldV { symbol: s[s.len() - 1].symbol, ty: spec_strip(s[s.len() - 1].ty) },
        )
    }
}

/// The rungs of a ladder after stripping: unit rungs dropped, inner ladders spliced in.
pub open spec fn spec_strip_rungs(s: Seq<TermV>) -> Seq<TermV>
    decreases s,
{
    if s.len() == 0 {
        Seq::empty()
    } else {
        let prev = spec_strip_rungs(s.subrange(0, s.len() - 1));
        let r = spec_strip(s[s.len() - 1]);
        if r == spec_unit() {
            prev
        } else {
            match r {
                TermV::Ladder(inner) => prev + inner,
                a => prev.push(a),
            }
        }
    }
}

/// The interface type: the top rung of every ladder, recursively.
pub open spec fn spec_interface(t: TermV) -> TermV
    decreases t,
{
    match t {
        TermV::Ladder(rungs) => if rungs.len() > 0 { spec_interface(rungs[0]) } else { spec_unit() },
        TermV::Spec(args) => TermV::Spec(spec_interface_seq(args)),
        TermV::Func(args) => TermV::Func(spec_interface_seq(args)),
        TermV::Morph(a, b) => TermV::Morph(Box::new(spec_interface(*a)), Box::new(spec_interface(*b))),
        TermV::Univ { gamma, bounds, tau } => TermV::Univ { gamma, bounds, tau: Box::new(spec_interface(*tau)) },
        TermV::Sequence { repr, item } => TermV::Sequence {
            repr: spec_interface_opt(repr),
            item: Box::new(spec_interface(*item)),
        },
        TermV::Struct { repr, members } => TermV::Struct {
            repr: spec_interface_opt(repr),
            members: spec_interface_fields(members),
        },
        TermV::Enum { repr, variants } => TermV::Enum {
            repr: spec_interface_opt(repr),
            variants: spec_interface_fields(variants),
        },
        atom => atom,
    }
}

pub open spec fn spec_interface_opt(o: Option<Box<TermV>>) -> Option<Box<TermV>>
    decreases o,
{
    match o {
        Some(b) => Some(Box::new(spec_interface(*b))),
        None => None,
    }
}

pub open spec fn spec_interface_seq(s: Seq<TermV>) -> Seq<TermV>
    decreases s,
{
    if s.len() == 0 {
        Seq::empty()
    } else {
        spec_interface_seq(s.subrange(0, s.len() - 1)).push(spec_interface(s[s.len() - 1]))
    }
}

pub open spec fn spec_interface_fields(s: Seq<FieldV>) -> Seq<FieldV>
    decreases s,
{
    if s.len() == 0 {
        Seq::empty()
    } else {
        spec_interface_fields(s.subrange(0, s.len() - 1)).push(
            FieldV { symbol: s[s.len() - 1].symbol, ty: spec_interface(s[s.len() - 1].ty) },
        )
    }
}

/// The floor type, split into the part above the bottom-most rung (`.0`) and that rung (`.1`).
pub open spec fn spec_floor(t: TermV) -> (TermV, TermV)
    decreases t,
{
    match t {
        TermV::Ladder(rungs) => {
            if rungs.len() > 0 {
                let (psi, floor) = spec_floor(rungs[rungs.len() - 1]);
                (
                    spec_strip(TermV::Ladder(rungs.subrange(0, rungs.len() - 1).push(psi))),
                    spec_strip(floor),
                )
            } else {
                (spec_unit(), spec_unit())
            }
        },
        other => (spec_unit(), spec_strip(other)),
    }
}


//------------------------------------------------------------------
// Emptiness and variable occurrence
//------------------------------------------------------------------

fn all_empty(v: &Vec<TypeTerm>) -> (r: bool)
    ensures
        r == spec_all_empty(terms_view(v@)),
    decreases v,
{
    let ghost sv = terms_view(v@);
    proof { lemma_terms_view(v@); }
    let mut acc = true;
    let mut i: usize = 0;
    while i < v.len()
        invariant
            i <= v.len(),
            sv == terms_view(v@),
            sv.len() == v.len(),
            forall|j: int| 0 <= j < v.len() ==> #[trigger] sv[j] == term_view(v@[j]),
            acc == spec_all_empty(sv.subrange(0, i as int)),
        decreases v.len() - i,
    {
        let e = v[i].is_empty();
        assert(sv.subrange(0, i + 1).subrange(0, i as int) =~= sv.subrange(0, i as int));
        acc = acc && e;
        i += 1;
    }
    assert(sv.subrange(0, v.len() as int) =~= sv);
    acc
}

fn all_empty_members(v: &Vec<StructMember>) -> (r: bool)
    ensures
        r == spec_all_empty_fields(members_view(v@)),
    decreases v,
{
    let ghost sv = members_view(v@);
    proof { lemma_members_view(v@); }
    let mut acc = true;
    let mut i: usize = 0;
    while i < v.len()
        invariant
            i <= v.len(),
            sv == members_view(v@),
            sv.len() == v.len(),
            forall|j: int| 0 <= j < v.len() ==> #[trigger] sv[j] == v@[j]@,
            acc == spec_all_empty_fields(sv.subrange(0, i as int)),
        decreases v.len() - i,
    {
        let e = v[i].ty.is_empty();
        assert(sv.subrange(0, i + 1).subrange(0, i as int) =~= sv.subrange(0, i as int));
        acc = acc && e;
        i += 1;
    }
    assert(sv.subrange(0, v.len() as int) =~= sv);
    acc
}

fn all_empty_variants(v: &Vec<EnumVariant>) -> (r: bool)
    ensures
        r == spec_all_empty_fields(variants_view(v@)),
    decreases v,
{
    let ghost sv = variants_view(v@);
    proof { lemma_variants_view(v@); }
    let mut acc = true;
    let mut i: usize = 0;
    while i < v.len()
        invariant
            i <= v.len(),
            sv == variants_view(v@),
            sv.len() == v.len(),
            forall|j: int| 0 <= j < v.len() ==> #[trigger] sv[j] == v@[j]@,
            acc == spec_all_empty_fields(sv.subrange(0, i as int)),
        decreases v.len() - i,
    {
        let e = v[i].ty.is_empty();
        assert(sv.subrange(0, i + 1).subrange(0, i as int) =~= sv.subrange(0, i as int));
        acc = acc && e;
        i += 1;
    }
    assert(sv.subrange(0, v.len() as int) =~= sv);
    acc
}

/// No variable above `u64::MAX` occurs in any term.
pub proof fn lemma_contains_large_var(t: TermV, v: int)
    requires
        v > u64::MAX,
    ensures
        !spec_contains_var(t, v),
    decreases t,
{
    match t {
        TermV::Spec(ts) | TermV::Func(ts) | TermV::Ladder(ts) => lemma_any_contains_large_var(ts, v),
        TermV::Morph(a, b) => {
            lemma_contains_large_var(*a, v);
            lemma_contains_large_var(*b, v);
        },
        TermV::Univ { gamma, bounds, tau } => lemma_contains_large_var(*tau, v + gamma.len()),
        TermV::Struct { repr, members } => {
            lemma_opt_contains_large_var(repr, v);
            lemma_fields_contains_large_var(members, v);
        },
        TermV::Enum { repr, variants } => {
            lemma_opt_contains_large_var(repr, v);
            lemma_fields_contains_large_var(variants, v);
        },
        TermV::Sequence { repr, item } => {
            lemma_opt_contains_large_var(repr, v);
            lemma_contains_large_var(*item, v);
        },
        _ => {},
    }
}

proof fn lemma_opt_contains_large_var(o: Option<Box<TermV>>, v: int)
    requires
        v > u64::MAX,
    ensures
        !spec_opt_contains_var(o, v),
    decreases o,
{
    if let Some(b) = o {
        lemma_contains_large_var(*b, v);
    }
}

proof fn lemma_any_contains_large_var(s: Seq<TermV>, v: int)
    requires
        v > u64::MAX,
    ensures
        !spec_any_contains_var(s, v),
    decreases s,
{
    if s.len() > 0 {
        lemma_any_contains_large_var(s.subrange(0, s.len() - 1), v);
        lemma_contains_large_var(s[s.len() - 1], v);
    }
}

proof fn lemma_fields_contains_large_var(s: Seq<FieldV>, v: int)
    requires
        v > u64::MAX,
    ensures
        !spec_any_field_contains_var(s, v),
    decreases s,
{
    if s.len() > 0 {
        lemma_fields_contains_large_var(s.subrange(0, s.len() - 1), v);
        lemma_contains_large_var(s[s.len() - 1].ty, v);
    }
}

fn any_contains_var(v: &Vec<TypeTerm>, var_id: u64) -> (r: bool)
    ensures
        r == spec_any_contains_var(terms_view(v@), var_id as int),
    decreases v,
{
    let ghost sv = terms_view(v@);
    proof { lemma_terms_view(v@); }
    let mut i: usize = 0;
    while i < v.len()
        invariant
            i <= v.len(),
            sv == terms_view(v@),
            sv.len() == v.len(),
            forall|j: int| 0 <= j < v.len() ==> #[trigger] sv[j] == term_view(v@[j]),
            !spec_any_contains_var(sv.subrange(0, i as int), var_id as int),
        decreases v.len() - i,
    {
        assert(sv.subrange(0, i + 1).subrange(0, i as int) =~= sv.subrange(0, i as int));
        if v[i].contains_var(var_id) {
            proof { lemma_any_prefix_contains(sv, i as int + 1, var_id as int); }
            return true;
        }
        i += 1;
    }
    assert(sv.subrange(0, v.len() as int) =~= sv);
    false
}

/// An occurrence in a prefix is an occurrence in the whole sequence.
proof fn lemma_any_prefix_contains(s: Seq<TermV>, n: int, v: int)
    requires
        0 <= n <= s.len(),
        spec_any_contains_var(s.subrange(0, n), v),
    ensures
        spec_any_contains_var(s, v),
    decreases s.len() - n,
{
    if n < s.len() {
        assert(s.subrange(0, n + 1).subrange(0, n) =~= s.subrange(0, n));
        lemma_any_prefix_contains(s, n + 1, v);
    } else {
        assert(s.subrange(0, n) =~= s);
    }
}

proof fn lemma_fields_prefix_contains(s: Seq<FieldV>, n: int, v: int)
    requires
        0 <= n <= s.len(),
        spec_any_field_contains_var(s.subrange(0, n), v),
    ensures
        spec_any_field_contains_var(s, v),
    decreases s.len() - n,
{
    if n < s.len() {
        assert(s.subrange(0, n + 1).subrange(0, n) =~= s.subrange(0, n));
        lemma_fields_prefix_contains(s, n + 1, v);
    } else {
        assert(s.subrange(0, n) =~= s);
    }
}

fn any_member_contains_var(v: &Vec<StructMember>, var_id: u64) -> (r: bool)
    ensures
        r == spec_any_field_contains_var(members_view(v@), var_id as int),
    decreases v,
{
    let ghost sv = members_view(v@);
    proof { lemma_members_view(v@); }
    let mut i: usize = 0;
    while i < v.len()
        invariant
            i <= v.len(),
            sv == members_view(v@),
            sv.len() == v.len(),
            forall|j: int| 0 <= j < v.len() ==> #[trigger] sv[j] == v@[j]@,
            !spec_any_field_contains_var(sv.subrange(0, i as int), var_id as int),
        decreases v.len() - i,
    {
        assert(sv.subrange(0, i + 1).subrange(0, i as int) =~= sv.subrange(0, i as int));
        if v[i].ty.contains_var(var_id) {
            proof { lemma_fields_prefix_contains(sv, i as int + 1, var_id as int); }
            return true;
        }
        i += 1;
    }
    assert(sv.subrange(0, v.len() as int) =~= sv);
    false
}

fn any_variant_contains_var(v: &Vec<EnumVariant>, var_id: u64) -> (r: bool)
    ensures
        r == spec_any_field_contains_var(variants_view(v@), var_id as int),
    decreases v,
{
    let ghost sv = variants_view(v@);
    proof { lemma_variants_view(v@); }
    let mut i: usize = 0;
    while i < v.len()
        invariant
            i <= v.len(),
            sv == variants_view(v@),
            sv.len() == v.len(),
            forall|j: int| 0 <= j < v.len() ==> #[trigger] sv[j] == v@[j]@,
            !spec_any_field_contains_var(sv.subrange(0, i as int), var_id as int),
        decreases v.len() - i,
    {
        assert(sv.subrange(0, i + 1).subrange(0, i as int) =~= sv.subrange(0, i as int));
        if v[i].ty.contains_var(var_id) {
            proof { lemma_fields_prefix_contains(sv, i as int + 1, var_id as int); }
            return true;
        }
        i += 1;
    }
    assert(sv.subrange(0, v.len() as int) =~= sv);
    false
}

fn opt_contains_var(o: &Option<Box<TypeTerm>>, var_id: u64) -> (r: bool)
    ensures
        r == spec_opt_contains_var(opt_view(*o), var_id as int),
    decreases o,
{
    match o {
        Some(b) => b.contains_var(var_id),
        None => false,
    }
}

impl TypeTerm {
    /// The unit type, an empty ladder.
    pub fn unit() -> (r: TypeTerm)
        ensures
            r@ == spec_unit(),
    {
        let v: Vec<TypeTerm> = Vec::new();
        proof { lemma_terms_view(v@); }
        let r = TypeTerm::Ladder(v);
        assert(r@ == TermV::Ladder(terms_view(v@)));
        assert(terms_view(v@) =~= Seq::<TermV>::empty());
        r
    }

    /// Whether the term is empty (only empty ladders in it).
    pub fn is_empty(&self) -> (r: bool)
        ensures
            r == spec_is_empty(self@),
        decreases self,
    {
        match self {
            TypeTerm::Id(_) | TypeTerm::Var(_) | TypeTerm::Num(_) | TypeTerm::Char(_) => false,
            TypeTerm::Univ { gamma: _, bounds: _, tau } => tau.is_empty(),
            TypeTerm::Spec(ts) | TypeTerm::Ladder(ts) | TypeTerm::Func(ts) => all_empty(ts),
            TypeTerm::Morph(a, b) => a.is_empty() && b.is_empty(),
            TypeTerm::Sequence { seq_repr: _, item } => item.is_empty(),
            TypeTerm::Struct { struct_repr: _, members } => all_empty_members(members),
            TypeTerm::Enum { enum_repr: _, variants } => all_empty_variants(variants),
        }
    }

    /// Whether variable `var_id` occurs in the term (shifted under quantifiers).
    pub fn contains_var(&self, var_id: u64) -> (r: bool)
        ensures
            r == spec_contains_var(self@, var_id as int),
        decreases self,
    {
        match self {
            TypeTerm::Var(v) => var_id == *v,
            TypeTerm::Spec(ts) | TypeTerm::Func(ts) | TypeTerm::Ladder(ts) => any_contains_var(ts, var_id),
            TypeTerm::Morph(a, b) => a.contains_var(var_id) || b.contains_var(var_id),
            TypeTerm::Univ { gamma, bounds: _, tau } => {
                proof { lemma_entries_view(gamma@); }
                match var_id.checked_add(gamma.len() as u64) {
                    Some(w) => tau.contains_var(w),
                    None => {
                        proof { lemma_contains_large_var(tau@, var_id + gamma.len()); }
                        false
                    },
                }
            },
            TypeTerm::Struct { struct_repr, members } =>
                opt_contains_var(struct_repr, var_id) || any_member_contains_var(members, var_id),
            TypeTerm::Enum { enum_repr, variants } =>
                opt_contains_var(enum_repr, var_id) || any_variant_contains_var(variants, var_id),
            TypeTerm::Sequence { seq_repr, item } =>
                opt_contains_var(seq_repr, var_id) || item.contains_var(var_id),
            TypeTerm::Num(_) | TypeTerm::Char(_) | TypeTerm::Id(_) => false,
        }
    }
}

//------------------------------------------------------------------
// Stripping
//------------------------------------------------------------------

fn strip_seq(v: &Vec<TypeTerm>) -> (r: Vec<TypeTerm>)
    ensures
        terms_view(r@) == spec_strip_seq(terms_view(v@)),
    decreases v,
{
    let ghost sv = terms_view(v@);
    proof { lemma_terms_view(v@); }
    let mut r: Vec<TypeTerm> = Vec::new();
    let mut i: usize = 0;
    assert(terms_view(r@) =~= spec_strip_seq(sv.subrange(0, 0)));
    while i < v.len()
        invariant
            i <= v.len(),
            sv == terms_view(v@),
            sv.len() == v.len(),
            forall|j: int| 0 <= j < v.len() ==> #[trigger] sv[j] == term_view(v@[j]),
            terms_view(r@) == spec_strip_seq(sv.subrange(0, i as int)),
        decreases v.len() - i,
    {
        let t = v[i].strip_ref();
        proof {
            lemma_terms_view_push(r@, t);
            assert(sv.subrange(0, i + 1).subrange(0, i as int) =~= sv.subrange(0, i as int));
        }
        r.push(t);
        i += 1;
    }
    assert(sv.subrange(0, v.len() as int) =~= sv);
    r
}

fn strip_members(v: &Vec<StructMember>) -> (r: Vec<StructMember>)
    ensures
        members_view(r@) == spec_strip_fields(members_view(v@)),
    decreases v,
{
    let ghost sv = members_view(v@);
    proof { lemma_members_view(v@); }
    let mut r: Vec<StructMember> = Vec::new();
    let mut i: usize = 0;
    assert(members_view(r@) =~= spec_strip_fields(sv.subrange(0, 0)));
    while i < v.len()
        invariant
            i <= v.len(),
            sv == members_view(v@),
            sv.len() == v.len(),
            forall|j: int| 0 <= j < v.len() ==> #[trigger] sv[j] == v@[j]@,
            members_view(r@) == spec_strip_fields(sv.subrange(0, i as int)),
        decreases v.len() - i,
    {
        let m = StructMember { symbol: v[i].symbol.clone(), ty: v[i].ty.strip_ref() };
        proof {
            lemma_members_view_push(r@, m);
            assert(sv.subrange(0, i + 1).subrange(0, i as int) =~= sv.subrange(0, i as int));
        }
        r.push(m);
        i += 1;
    }
    assert(sv.subrange(0, v.len() as int) =~= sv);
    r
}

fn strip_variants(v: &Vec<EnumVariant>) -> (r: Vec<EnumVariant>)
    ensures
        variants_view(r@) == spec_strip_fields(variants_view(v@)),
    decreases v,
{
    let ghost sv = variants_view(v@);
    proof { lemma_variants_view(v@); }
    let mut r: Vec<EnumVariant> = Vec::new();
    let mut i: usize = 0;
    assert(variants_view(r@) =~= spec_strip_fields(sv.subrange(0, 0)));
    while i < v.len()
        invariant
            i <= v.len(),
            sv == variants_view(v@),
            sv.len() == v.len(),
            forall|j: int| 0 <= j < v.len() ==> #[trigger] sv[j] == v@[j]@,
            variants_view(r@) == spec_strip_fields(sv.subrange(0, i as int)),
        decreases v.len() - i,
    {
        let m = EnumVariant { symbol: v[i].symbol.clone(), ty: v[i].ty.strip_ref() };
        proof {
            lemma_variants_view_push(r@, m);
            assert(sv.subrange(0, i + 1).subrange(0, i as int) =~= sv.subrange(0, i as int));
        }
        r.push(m);
        i += 1;
    }
    assert(sv.subrange(0, v.len() as int) =~= sv);
    r
}

fn strip_opt(o: &Option<Box<TypeTerm>>) -> (r: Option<Box<TypeTerm>>)
    ensures
        opt_view(r) == spec_strip_opt(opt_view(*o)),
    decreases o,
{
    match o {
        Some(b) => Some(Box::new(b.strip_ref())),
        None => None,
    }
}

fn strip_rungs(v: &Vec<TypeTerm>) -> (r: Vec<TypeTerm>)
    ensures
        terms_view(r@) == spec_strip_rungs(terms_view(v@)),
    decreases v,
{
    let ghost sv = terms_view(v@);
    proof { lemma_terms_view(v@); }
    let mut r: Vec<TypeTerm> = Vec::new();
    let mut i: usize = 0;
    assert(terms_view(r@) =~= spec_strip_rungs(sv.subrange(0, 0)));
    while i < v.len()
        invariant
            i <= v.len(),
            sv == terms_view(v@),
            sv.len() == v.len(),
            forall|j: int| 0 <= j < v.len() ==> #[trigger] sv[j] == term_view(v@[j]),
            terms_view(r@) == spec_strip_rungs(sv.subrange(0, i as int)),
        decreases v.len() - i,
    {
        let t = v[i].strip_ref();
        proof {
            assert(sv.subrange(0, i + 1).subrange(0, i as int) =~= sv.subrange(0, i as int));
        }
        match t {
            TypeTerm::Ladder(mut inner) => {
                if inner.len() == 0 {
                    proof {
                        lemma_terms_view(inner@);
                        assert(terms_view(inner@) =~= Seq::<TermV>::empty());
                    }
                } else {
                    proof {
                        lemma_terms_view(inner@);
                        lemma_terms_view_append(r@, inner@);
                        assert(terms_view(inner@).len() > 0);
                    }
                    r.append(&mut inner);
                }
            },
            a => {
                proof { lemma_terms_view_push(r@, a); }
                r.push(a);
            },
        }
        i += 1;
    }
    assert(sv.subrange(0, v.len() as int) =~= sv);
    r
}

impl TypeTerm {
    /// Strips a term without consuming it.
    pub fn strip_ref(&self) -> (r: TypeTerm)
        ensures
            r@ == spec_strip(self@),
        decreases self,
    {
        if self.is_empty() {
            return TypeTerm::unit();
        }
        match self {
            TypeTerm::Ladder(rungs) => {
                let mut rs = strip_rungs(rungs);
                proof { lemma_terms_view(rs@); }
                if rs.len() == 1 {
                    let x = rs.pop().unwrap();
                    x
                } else {
                    TypeTerm::Ladder(rs)
                }
            },
            TypeTerm::Spec(args) => {
                let mut a = strip_seq(args);
                proof { lemma_terms_view(a@); }
                if a.len() == 0 {
                    TypeTerm::unit()
                } else if a.len() == 1 {
                    let x = a.pop().unwrap();
                    x
                } else {
                    TypeTerm::Spec(a)
                }
            },
            TypeTerm::Func(args) => TypeTerm::Func(strip_seq(args)),
            TypeTerm::Morph(a, b) => TypeTerm::Morph(Box::new(a.strip_ref()), Box::new(b.strip_ref())),
            TypeTerm::Sequence { seq_repr, item } => TypeTerm::Sequence {
                seq_repr: strip_opt(seq_repr),
                item: Box::new(item.strip_ref()),
            },
            TypeTerm::Struct { struct_repr, members } => TypeTerm::Struct {
                struct_repr: strip_opt(struct_repr),
                members: strip_members(members),
            },
            TypeTerm::Enum { enum_repr, variants } => TypeTerm::Enum {
                enum_repr: strip_opt(enum_repr),
                variants: strip_variants(variants),
            },
            _ => self.copy(),
        }
    }

    /// Removes empty rungs, flattens nested ladders and unwraps singleton ladders and applications.
    pub fn strip(self) -> (r: TypeTerm)
        ensures
            r@ == spec_strip(self@),
    {
        self.strip_ref()
    }
}

//------------------------------------------------------------------
// Interface and floor types
//------------------------------------------------------------------

fn interface_seq(v: &Vec<TypeTerm>) -> (r: Vec<TypeTerm>)
    ensures
        terms_view(r@) == spec_interface_seq(terms_view(v@)),
    decreases v,
{
    let ghost sv = terms_view(v@);
    proof { lemma_terms_view(v@); }
    let mut r: Vec<TypeTerm> = Vec::new();
    let mut i: usize = 0;
    assert(terms_view(r@) =~= spec_interface_seq(sv.subrange(0, 0)));
    while i < v.len()
        invariant
            i <= v.len(),
            sv == terms_view(v@),
            sv.len() == v.len(),
            forall|j: int| 0 <= j < v.len() ==> #[trigger] sv[j] == term_view(v@[j]),
            terms_view(r@) == spec_interface_seq(sv.subrange(0, i as int)),
        decreases v.len() - i,
    {
        let t = v[i].get_interface_type();
        proof {
            lemma_terms_view_push(r@, t);
            assert(sv.subrange(0, i + 1).subrange(0, i as int) =~= sv.subrange(0, i as int));
        }
        r.push(t);
        i += 1;
    }
    assert(sv.subrange(0, v.len() as int) =~= sv);
    r
}

fn interface_members(v: &Vec<StructMember>) -> (r: Vec<StructMember>)
    ensures
        members_view(r@) == spec_interface_fields(members_view(v@)),
    decreases v,
{
    let ghost sv = members_view(v@);
    proof { lemma_members_view(v@); }
    let mut r: Vec<StructMember> = Vec::new();
    let mut i: usize = 0;
    assert(members_view(r@) =~= spec_interface_fields(sv.subrange(0, 0)));
    while i < v.len()
        invariant
            i <= v.len(),
            sv == members_view(v@),
            sv.len() == v.len(),
            forall|j: int| 0 <= j < v.len() ==> #[trigger] sv[j] == v@[j]@,
            members_view(r@) == spec_interface_fields(sv.subrange(0, i as int)),
        decreases v.len() - i,
    {
        let m = StructMember { symbol: v[i].symbol.clone(), ty: v[i].ty.get_interface_type() };
        proof {
            lemma_members_view_push(r@, m);
            assert(sv.subrange(0, i + 1).subrange(0, i as int) =~= sv.subrange(0, i as int));
        }
        r.push(m);
        i += 1;
    }
    assert(sv.subrange(0, v.len() as int) =~= sv);
    r
}

fn interface_variants(v: &Vec<EnumVariant>) -> (r: Vec<EnumVariant>)
    ensures
        variants_view(r@) == spec_interface_fields(variants_view(v@)),
    decreases v,
{
    let ghost sv = variants_view(v@);
    proof { lemma_variants_view(v@); }
    let mut r: Vec<EnumVariant> = Vec::new();
    let mut i: usize = 0;
    assert(variants_view(r@) =~= spec_interface_fields(sv.subrange(0, 0)));
    while i < v.len()
        invariant
            i <= v.len(),
            sv == variants_view(v@),
            sv.len() == v.len(),
            forall|j: int| 0 <= j < v.len() ==> #[trigger] sv[j] == v@[j]@,
            variants_view(r@) == spec_interface_fields(sv.subrange(0, i as int)),
        decreases v.len() - i,
    {
        let m = EnumVariant { symbol: v[i].symbol.clone(), ty: v[i].ty.get_interface_type() };
        proof {
            lemma_variants_view_push(r@, m);
            assert(sv.subrange(0, i + 1).subrange(0, i as int) =~= sv.subrange(0, i as int));
        }
        r.push(m);
        i += 1;
    }
    assert(sv.subrange(0, v.len() as int) =~= sv);
    r
}

fn interface_opt(o: &Option<Box<TypeTerm>>) -> (r: Option<Box<TypeTerm>>)
    ensures
        opt_view(r) == spec_interface_opt(opt_view(*o)),
    decreases o,
{
    match o {
        Some(b) => Some(Box::new(b.get_interface_type())),
        None => None,
    }
}

impl TypeTerm {
    /// The interface type: the top rung of every ladder, recursively.
    pub fn get_interface_type(&self) -> (r: TypeTerm)
        ensures
            r@ == spec_interface(self@),
        decreases self,
    {
        match self {
            TypeTerm::Ladder(rungs) => {
                proof { lemma_terms_view(rungs@); }
                if rungs.len() > 0 {
                    rungs[0].get_interface_type()
                } else {
                    TypeTerm::unit()
                }
            },
            TypeTerm::Spec(args) => TypeTerm::Spec(interface_seq(args)),
            TypeTerm::Func(args) => TypeTerm::Func(interface_seq(args)),
            TypeTerm::Morph(a, b) => TypeTerm::Morph(
                Box::new(a.get_interface_type()),
                Box::new(b.get_interface_type()),
            ),
            TypeTerm::Univ { gamma, bounds, tau } => TypeTerm::Univ {
                gamma: copy_entries(gamma),
                bounds: copy_pairs(bounds),
                tau: Box::new(tau.get_interface_type()),
            },
            TypeTerm::Sequence { seq_repr, item } => TypeTerm::Sequence {
                seq_repr: interface_opt(seq_repr),
                item: Box::new(item.get_interface_type()),
            },
            TypeTerm::Struct { struct_repr, members } => TypeTerm::Struct {
                struct_repr: interface_opt(struct_repr),
                members: interface_members(members),
            },
            TypeTerm::Enum { enum_repr, variants } => TypeTerm::Enum {
                enum_repr: interface_opt(enum_repr),
                variants: interface_variants(variants),
            },
            TypeTerm::Var(v) => TypeTerm::Var(*v),
            TypeTerm::Id(v) => TypeTerm::Id(*v),
            TypeTerm::Num(n) => TypeTerm::Num(*n),
            TypeTerm::Char(c) => TypeTerm::Char(*c),
        }
    }

    /// Splits off the bottom-most rung: `.1` is the floor type, `.0` the ladder above it.
    pub fn get_floor_type(&self) -> (r: (TypeTerm, TypeTerm))
        ensures
            r.0@ == spec_floor(self@).0,
            r.1@ == spec_floor(self@).1,
        decreases self,
    {
        match self {
            TypeTerm::Ladder(rungs) => {
                proof { lemma_terms_view(rungs@); }
                if rungs.len() > 0 {
                    let n = rungs.len() - 1;
                    let (bot_psi, bot_floor) = rungs[n].get_floor_type();
                    let mut rs = copy_prefix(rungs, n);
                    proof { lemma_terms_view_push(rs@, bot_psi); }
                    rs.push(bot_psi);
                    let upper = TypeTerm::Ladder(rs);
                    (upper.strip(), bot_floor.strip())
                } else {
                    (TypeTerm::unit(), TypeTerm::unit())
                }
            },
            _ => (TypeTerm::unit(), self.strip_ref()),
        }
    }
}

//------------------------------------------------------------------
// Law: a term is empty exactly when it strips to the unit
//------------------------------------------------------------------

/// A term is empty exactly where stripping it leaves the unit type; annotations of
/// representation do not count.  (Where stripping leaves a ladder, its rungs are
/// neither units nor ladders.)
pub proof fn law_empty_iff_strips_to_unit(t: TermV)
    ensures
        spec_is_empty(t) <==> spec_strip(t) == spec_unit(),
        spec_strip(t) matches TermV::Ladder(xs) ==> forall|i: int| 0 <= i < xs.len()
            ==> #[trigger] xs[i] != spec_unit() && !(xs[i] is Ladder),
    decreases t, 1int,
{
    if !spec_is_empty(t) {
        match t {
            TermV::Ladder(rungs) => {
                lemma_strip_rungs_shape(rungs);
                let rs = spec_strip_rungs(rungs);
                assert(rs.len() > 0);
                if rs.len() == 1 {
                    assert(spec_strip(t) == rs[0]);
                    assert(rs[0] != spec_unit());
                } else {
                    assert(spec_strip(t) == TermV::Ladder(rs));
                    assert(rs != Seq::<TermV>::empty());
                }
            },
            TermV::Spec(args) => {
                lemma_strip_seq_each(args);
                let a = spec_strip_seq(args);
                assert(spec_all_empty(Seq::<TermV>::empty()));
                if args.len() == 0 {
                    assert(args =~= Seq::<TermV>::empty());
                }
                assert(args.len() > 0);
                if args.len() == 1 {
                    assert(args.subrange(0, 0) =~= Seq::<TermV>::empty());
                    assert(spec_all_empty(args.subrange(0, 0)));
                    assert(spec_all_empty(args) == (spec_all_empty(args.subrange(0, args.len() - 1))
                        && spec_is_empty(args[args.len() - 1])));
                    assert(!spec_is_empty(args[0]));
                    assert(decreases_to!(t => args));
                    assert(decreases_to!(args => args[0]));
                    law_empty_iff_strips_to_unit(args[0]);
                    assert(spec_strip(t) == a[0]);
                } else {
                    assert(spec_strip(t) == TermV::Spec(a));
                }
            },
            _ => {
                assert(spec_strip(t) != spec_unit());
            },
        }
    }
}

/// Stripping a sequence strips each of its terms.
proof fn lemma_strip_seq_each(s: Seq<TermV>)
    ensures
        spec_strip_seq(s).len() == s.len(),
        forall|i: int| 0 <= i < s.len() ==> #[trigger] spec_strip_seq(s)[i] == spec_strip(s[i]),
    decreases s.len(),
{
    if s.len() > 0 {
        lemma_strip_seq_each(s.subrange(0, s.len() - 1));
    }
}

/// The rungs of a ladder after stripping are neither units nor ladders, and at least
/// one is left where the ladder is not empty.
proof fn lemma_strip_rungs_shape(s: Seq<TermV>)
    ensures
        !spec_all_empty(s) ==> spec_strip_rungs(s).len() > 0,
        forall|i: int| 0 <= i < spec_strip_rungs(s).len()
            ==> #[trigger] spec_strip_rungs(s)[i] != spec_unit() && !(spec_strip_rungs(s)[i] is Ladder),
    decreases s, 0int,
{
    if s.len() > 0 {
        let prev = s.subrange(0, s.len() - 1);
        let last = s[s.len() - 1];
        lemma_strip_rungs_shape(prev);
        law_empty_iff_strips_to_unit(last);
        let p = spec_strip_rungs(prev);
        let r = spec_strip(last);
        if r != spec_unit() {
            if let TermV::Ladder(inner) = r {
                if inner.len() == 0 {
                    assert(inner =~= Seq::<TermV>::empty());
                }
                assert forall|i: int| 0 <= i < (p + inner).len()
                    implies #[trigger] (p + inner)[i] != spec_unit() && !((p + inner)[i] is Ladder) by {
                    if i >= p.len() {
                        assert((p + inner)[i] == inner[i - p.len()]);
                    } else {
                        assert((p + inner)[i] == p[i]);
                    }
                }
            } else {
                assert forall|i: int| 0 <= i < p.push(r).len()
                    implies #[trigger] p.push(r)[i] != spec_unit() && !(p.push(r)[i] is Ladder) by {
                    if i < p.len() {
                        assert(p.push(r)[i] == p[i]);
                    }
                }
            }
        }
    }
}


//------------------------------------------------------------------
// Law: stripping is idempotent
//------------------------------------------------------------------

/// The shape of a stripped term: stripping it again leaves it, it is empty only where it
/// is the unit, and the rungs of a stripped ladder are stripped rungs.
pub open spec fn spec_stripped(x: TermV) -> bool {
    &&& spec_strip(x) == x
    &&& (spec_is_empty(x) ==> x == spec_unit())
    &&& (x matches TermV::Ladder(xs) ==> forall|i: int| 0 <= i < xs.len() ==> #[trigger] spec_stripped_rung(xs[i]))
}

/// A rung of a stripped ladder: stripped, not empty, and no ladder.
pub open spec fn spec_stripped_rung(e: TermV) -> bool {
    &&& spec_strip(e) == e
    &&& !spec_is_empty(e)
    &&& e != spec_unit()
    &&& !(e is Ladder)
}

/// Stripping a term twice gives what stripping it once gives.
pub proof fn law_strip_idempotent(t: TermV)
    ensures
        spec_strip(spec_strip(t)) == spec_strip(t),
{
    lemma_strip_shape(t);
}

proof fn lemma_all_empty_each(s: Seq<TermV>)
    ensures
        spec_all_empty(s) <==> forall|i: int| 0 <= i < s.len() ==> #[trigger] spec_is_empty(s[i]),
    decreases s.len(),
{
    if s.len() > 0 {
        let p = s.subrange(0, s.len() - 1);
        lemma_all_empty_each(p);
        assert(spec_all_empty(s) == (spec_all_empty(p) && spec_is_empty(s[s.len() - 1])));
        if spec_all_empty(s) {
            assert forall|i: int| 0 <= i < s.len() implies #[trigger] spec_is_empty(s[i]) by {
                if i < s.len() - 1 {
                    assert(p[i] == s[i]);
                }
            }
        }
        if forall|i: int| 0 <= i < s.len() ==> #[trigger] spec_is_empty(s[i]) {
            assert forall|i: int| 0 <= i < p.len() implies #[trigger] spec_is_empty(p[i]) by {
                assert(p[i] == s[i]);
            }
        }
    }
}

proof fn lemma_all_empty_fields_each(s: Seq<FieldV>)
    ensures
        spec_all_empty_fields(s) <==> forall|i: int| 0 <= i < s.len() ==> #[trigger] spec_is_empty(s[i].ty),
    decreases s.len(),
{
    if s.len() > 0 {
        let p = s.subrange(0, s.len() - 1);
        lemma_all_empty_fields_each(p);
        assert(spec_all_empty_fields(s) == (spec_all_empty_fields(p) && spec_is_empty(s[s.len() - 1].ty)));
        if spec_all_empty_fields(s) {
            assert forall|i: int| 0 <= i < s.len() implies #[trigger] spec_is_empty(s[i].ty) by {
                if i < s.len() - 1 {
                    assert(p[i] == s[i]);
                }
            }
        }
        if forall|i: int| 0 <= i < s.len() ==> #[trigger] spec_is_empty(s[i].ty) {
            assert forall|i: int| 0 <= i < p.len() implies #[trigger] spec_is_empty(p[i].ty) by {
                assert(p[i] == s[i]);
            }
        }
    }
}

proof fn lemma_strip_fields_each(s: Seq<FieldV>)
    ensures
        spec_strip_fields(s).len() == s.len(),
        forall|i: int| 0 <= i < s.len() ==> #[trigger] spec_strip_fields(s)[i]
            == (FieldV { symbol: s[i].symbol, ty: spec_strip(s[i].ty) }),
    decreases s.len(),
{
    if s.len() > 0 {
        lemma_strip_fields_each(s.subrange(0, s.len() - 1));
    }
}

/// Rungs that are already stripped rungs stay as they are.
proof fn lemma_rungs_id(x: Seq<TermV>)
    requires
        forall|i: int| 0 <= i < x.len() ==> #[trigger] spec_stripped_rung(x[i]),
    ensures
        spec_strip_rungs(x) == x,
    decreases x.len(),
{
    if x.len() > 0 {
        let p = x.subrange(0, x.len() - 1);
        assert forall|i: int| 0 <= i < p.len() implies #[trigger] spec_stripped_rung(p[i]) by {
            assert(p[i] == x[i]);
        }
        lemma_rungs_id(p);
        assert(spec_stripped_rung(x[x.len() - 1]));
        assert(p.push(x[x.len() - 1]) =~= x);
    }
}

proof fn lemma_seq_stripped(s: Seq<TermV>)
    ensures
        forall|i: int| 0 <= i < s.len() ==> spec_stripped(#[trigger] spec_strip(s[i])),
    decreases s, 1int,
{
    if s.len() > 0 {
        let p = s.subrange(0, s.len() - 1);
        lemma_seq_stripped(p);
        lemma_strip_shape(s[s.len() - 1]);
        assert forall|i: int| 0 <= i < s.len() implies spec_stripped(#[trigger] spec_strip(s[i])) by {
            if i < s.len() - 1 {
                assert(p[i] == s[i]);
                assert(spec_stripped(spec_strip(p[i])));
            }
        }
    }
}

proof fn lemma_fields_stripped(s: Seq<FieldV>)
    ensures
        forall|i: int| 0 <= i < s.len() ==> spec_stripped(#[trigger] spec_strip(s[i].ty)),
    decreases s, 1int,
{
    if s.len() > 0 {
        let p = s.subrange(0, s.len() - 1);
        lemma_fields_stripped(p);
        assert(decreases_to!(s => s[s.len() - 1]));
        assert(decreases_to!(s[s.len() - 1] => s[s.len() - 1].ty));
        lemma_strip_shape(s[s.len() - 1].ty);
        assert forall|i: int| 0 <= i < s.len() implies spec_stripped(#[trigger] spec_strip(s[i].ty)) by {
            if i < s.len() - 1 {
                assert(p[i] == s[i]);
                assert(spec_stripped(spec_strip(p[i].ty)));
            }
        }
    }
}

proof fn lemma_strip_rungs_stripped(s: Seq<TermV>)
    ensures
        !spec_all_empty(s) ==> spec_strip_rungs(s).len() > 0,
        forall|i: int| 0 <= i < spec_strip_rungs(s).len() ==> #[trigger] spec_stripped_rung(spec_strip_rungs(s)[i]),
    decreases s, 1int,
{
    lemma_strip_rungs_shape(s);
    if s.len() > 0 {
        let prev = s.subrange(0, s.len() - 1);
        let last = s[s.len() - 1];
        lemma_strip_rungs_stripped(prev);
        lemma_strip_shape(last);
        let p = spec_strip_rungs(prev);
        let r = spec_strip(last);
        if r != spec_unit() {
            if let TermV::Ladder(inner) = r {
                assert forall|i: int| 0 <= i < (p + inner).len()
                    implies #[trigger] spec_stripped_rung((p + inner)[i]) by {
                    if i >= p.len() {
                        assert((p + inner)[i] == inner[i - p.len()]);
                    } else {
                        assert((p + inner)[i] == p[i]);
                    }
                }
            } else {
                assert forall|i: int| 0 <= i < p.push(r).len()
                    implies #[trigger] spec_stripped_rung(p.push(r)[i]) by {
                    if i < p.len() {
                        assert(p.push(r)[i] == p[i]);
                    }
                }
            }
        }
    }
}

/// Stripping leaves a stripped term.
proof fn lemma_strip_shape(t: TermV)
    ensures
        spec_stripped(spec_strip(t)),
    decreases t, 2int,
{
    law_empty_iff_strips_to_unit(t);
    assert(spec_all_empty(Seq::<TermV>::empty()));
    assert(spec_is_empty(spec_unit()));
    if !spec_is_empty(t) {
        match t {
            TermV::Ladder(rungs) => {
                lemma_strip_rungs_stripped(rungs);
                let rs = spec_strip_rungs(rungs);
                if rs.len() != 1 {
                    lemma_all_empty_each(rs);
                    assert(spec_stripped_rung(rs[0]));
                    assert(!spec_all_empty(rs));
                    lemma_rungs_id(rs);
                    assert(spec_strip(TermV::Ladder(rs)) == TermV::Ladder(rs));
                } else {
                    assert(spec_stripped_rung(rs[0]));
                }
                assert(spec_stripped(spec_strip(t)));
            },
            TermV::Spec(args) => {
                lemma_strip_seq_each(args);
                lemma_seq_stripped(args);
                lemma_all_empty_each(args);
                let a = spec_strip_seq(args);
                if a.len() == 1 {
                    assert(a[0] == spec_strip(args[0]));
                    assert(spec_stripped(spec_strip(args[0])));
                } else {
                    let k = choose|k: int| 0 <= k < args.len() && !spec_is_empty(args[k]);
                    law_empty_iff_strips_to_unit(args[k]);
                    assert(spec_stripped(spec_strip(args[k])));
                    assert(!spec_is_empty(a[k]));
                    lemma_all_empty_each(a);
                    lemma_strip_seq_each(a);
                    assert forall|i: int| 0 <= i < a.len() implies spec_strip_seq(a)[i] == a[i] by {
                        assert(spec_stripped(spec_strip(args[i])));
                    }
                    assert(spec_strip_seq(a) =~= a);
                    assert(spec_strip(TermV::Spec(a)) == TermV::Spec(a));
                }
                assert(spec_stripped(spec_strip(t)));
            },
            TermV::Func(args) => {
                lemma_strip_seq_each(args);
                lemma_seq_stripped(args);
                lemma_all_empty_each(args);
                let a = spec_strip_seq(args);
                let k = choose|k: int| 0 <= k < args.len() && !spec_is_empty(args[k]);
                law_empty_iff_strips_to_unit(args[k]);
                assert(spec_stripped(spec_strip(args[k])));
                assert(!spec_is_empty(a[k]));
                lemma_all_empty_each(a);
                lemma_strip_seq_each(a);
                assert forall|i: int| 0 <= i < a.len() implies spec_strip_seq(a)[i] == a[i] by {
                    assert(spec_stripped(spec_strip(args[i])));
                }
                assert(spec_strip_seq(a) =~= a);
                assert(spec_strip(TermV::Func(a)) == TermV::Func(a));
                assert(spec_stripped(spec_strip(t)));
            },
            TermV::Morph(p, q) => {
                lemma_strip_shape(*p);
                lemma_strip_shape(*q);
                law_empty_iff_strips_to_unit(*p);
                law_empty_iff_strips_to_unit(*q);
                assert(spec_stripped(spec_strip(t)));
            },
            TermV::Sequence { repr, item } => {
                lemma_strip_shape(*item);
                law_empty_iff_strips_to_unit(*item);
                if let Some(b) = repr {
                    lemma_strip_shape(*b);
                }
                assert(spec_strip_opt(spec_strip_opt(repr)) == spec_strip_opt(repr));
                assert(spec_stripped(spec_strip(t)));
            },
            TermV::Struct { repr, members } => {
                if let Some(b) = repr {
                    lemma_strip_shape(*b);
                }
                lemma_fields_stripped(members);
                lemma_strip_fields_each(members);
                lemma_all_empty_fields_each(members);
                let f = spec_strip_fields(members);
                let k = choose|k: int| 0 <= k < members.len() && !spec_is_empty(members[k].ty);
                law_empty_iff_strips_to_unit(members[k].ty);
                assert(spec_stripped(spec_strip(members[k].ty)));
                assert(!spec_is_empty(f[k].ty));
                lemma_all_empty_fields_each(f);
                lemma_strip_fields_each(f);
                assert forall|i: int| 0 <= i < f.len() implies spec_strip_fields(f)[i] == f[i] by {
                    assert(spec_stripped(spec_strip(members[i].ty)));
                }
                assert(spec_strip_fields(f) =~= f);
                assert(spec_strip_opt(spec_strip_opt(repr)) == spec_strip_opt(repr));
                assert(spec_stripped(spec_strip(t)));
            },
            TermV::Enum { repr, variants } => {
                if let Some(b) = repr {
                    lemma_strip_shape(*b);
                }
                lemma_fields_stripped(variants);
                lemma_strip_fields_each(variants);
                lemma_all_empty_fields_each(variants);
                let f = spec_strip_fields(variants);
                let k = choose|k: int| 0 <= k < variants.len() && !spec_is_empty(variants[k].ty);
                law_empty_iff_strips_to_unit(variants[k].ty);
                assert(spec_stripped(spec_strip(variants[k].ty)));
                assert(!spec_is_empty(f[k].ty));
                lemma_all_empty_fields_each(f);
                lemma_strip_fields_each(f);
                assert forall|i: int| 0 <= i < f.len() implies spec_strip_fields(f)[i] == f[i] by {
                    assert(spec_stripped(spec_strip(variants[i].ty)));
                }
                assert(spec_strip_fields(f) =~= f);
                assert(spec_strip_opt(spec_strip_opt(repr)) == spec_strip_opt(repr));
                assert(spec_stripped(spec_strip(t)));
            },
            _ => {
                assert(spec_stripped(spec_strip(t)));
            },
        }
    }
}

//------------------------------------------------------------------
// Law: the interface type holds no ladder
//------------------------------------------------------------------

/// No ladder with rungs stands anywhere in `t` (the unit, an empty ladder, is allowed);
/// the context and bounds of a quantifier are not looked into.
pub open spec fn spec_ladder_free(t: TermV) -> bool
    decreases t,
{
    match t {
        TermV::Ladder(rungs) => rungs.len() == 0,
        TermV::Spec(ts) | TermV::Func(ts) => spec_all_ladder_free(ts),
        TermV::Morph(a, b) => spec_ladder_free(*a) && spec_ladder_free(*b),
        TermV::Univ { gamma, bounds, tau } => spec_ladder_free(*tau),
        TermV::Sequence { repr, item } => spec_opt_ladder_free(repr) && spec_ladder_free(*item),
        TermV::Struct { repr, members } => spec_opt_ladder_free(repr) && spec_fields_ladder_free(members),
        TermV::Enum { repr, variants } => spec_opt_ladder_free(repr) && spec_fields_ladder_free(variants),
        TermV::Id(_) | TermV::Var(_) | TermV::Num(_) | TermV::Char(_) => true,
    }
}

pub open spec fn spec_opt_ladder_free(o: Option<Box<TermV>>) -> bool
    decreases o,
{
    match o {
        Some(b) => spec_ladder_free(*b),
        None => true,
    }
}

pub open spec fn spec_all_ladder_free(s: Seq<TermV>) -> bool
    decreases s,
{
    if s.len() == 0 {
        true
    } else {
        spec_all_ladder_free(s.subrange(0, s.len() - 1)) && spec_ladder_free(s[s.len() - 1])
    }
}

pub open spec fn spec_fields_ladder_free(s: Seq<FieldV>) -> bool
    decreases s,
{
    if s.len() == 0 {
        true
    } else {
        spec_fields_ladder_free(s.subrange(0, s.len() - 1)) && spec_ladder_free(s[s.len() - 1].ty)
    }
}

/// The interface type is a projection onto the terms without ladders: no ladder with
/// rungs is left anywhere in it (the item of a sequence, the members of a structure, the
/// arguments of an application and each side of a morphism included), and a term without
/// ladders is its own interface type.
pub proof fn law_interface_ladder_free(t: TermV)
    ensures
        spec_ladder_free(spec_interface(t)),
        spec_ladder_free(t) ==> spec_interface(t) == t,
{
    lemma_interface_ladder_free(t);
}

proof fn lemma_interface_ladder_free(t: TermV)
    ensures
        spec_ladder_free(spec_interface(t)),
        spec_ladder_free(t) ==> spec_interface(t) == t,
    decreases t, 2int,
{
    match t {
        TermV::Ladder(rungs) => {
            if rungs.len() > 0 {
                lemma_interface_ladder_free(rungs[0]);
            } else {
                assert(rungs =~= Seq::<TermV>::empty());
            }
        },
        TermV::Spec(ts) => {
            lemma_interface_seq_ladder_free(ts);
        },
        TermV::Func(ts) => {
            lemma_interface_seq_ladder_free(ts);
        },
        TermV::Morph(a, b) => {
            lemma_interface_ladder_free(*a);
            lemma_interface_ladder_free(*b);
        },
        TermV::Univ { gamma, bounds, tau } => {
            lemma_interface_ladder_free(*tau);
        },
        TermV::Sequence { repr, item } => {
            lemma_interface_opt_ladder_free(repr);
            lemma_interface_ladder_free(*item);
        },
        TermV::Struct { repr, members } => {
            lemma_interface_opt_ladder_free(repr);
            lemma_interface_fields_ladder_free(members);
        },
        TermV::Enum { repr, variants } => {
            lemma_interface_opt_ladder_free(repr);
            lemma_interface_fields_ladder_free(variants);
        },
        _ => {},
    }
}

proof fn lemma_interface_opt_ladder_free(o: Option<Box<TermV>>)
    ensures
        spec_opt_ladder_free(spec_interface_opt(o)),
        spec_opt_ladder_free(o) ==> spec_interface_opt(o) == o,
    decreases o, 1int,
{
    if let Some(b) = o {
        lemma_interface_ladder_free(*b);
    }
}

proof fn lemma_interface_seq_ladder_free(s: Seq<TermV>)
    ensures
        spec_all_ladder_free(spec_interface_seq(s)),
        spec_all_ladder_free(s) ==> spec_interface_seq(s) == s,
    decreases s, 1int,
{
    if s.len() > 0 {
        let p = s.subrange(0, s.len() - 1);
        let last = s[s.len() - 1];
        lemma_interface_seq_ladder_free(p);
        lemma_interface_ladder_free(last);
        let q = spec_interface_seq(p).push(spec_interface(last));
        assert(q.subrange(0, q.len() - 1) =~= spec_interface_seq(p));
        if spec_all_ladder_free(s) {
            assert(p.push(last) =~= s);
        }
    }
}

proof fn lemma_interface_fields_ladder_free(s: Seq<FieldV>)
    ensures
        spec_fields_ladder_free(spec_interface_fields(s)),
        spec_fields_ladder_free(s) ==> spec_interface_fields(s) == s,
    decreases s, 1int,
{
    if s.len() > 0 {
        let p = s.subrange(0, s.len() - 1);
        let last = s[s.len() - 1];
        lemma_interface_fields_ladder_free(p);
        assert(decreases_to!(s => s[s.len() - 1]));
        assert(decreases_to!(s[s.len() - 1] => s[s.len() - 1].ty));
        lemma_interface_ladder_free(last.ty);
        let f = FieldV { symbol: last.symbol, ty: spec_interface(last.ty) };
        let q = spec_interface_fields(p).push(f);
        assert(q.subrange(0, q.len() - 1) =~= spec_interface_fields(p));
        if spec_fields_ladder_free(s) {
            assert(p.push(last) =~= s);
        }
    }
}

//------------------------------------------------------------------
// Law: the floor type of a ladder
//------------------------------------------------------------------

/// The floor type of a ladder of at least two rungs, each stripped, not empty and no
/// ladder, is its bottom rung; what lies above it is the ladder of the other rungs (the
/// one rung itself where only one is left).
pub proof fn law_floor_of_ladder(rs: Seq<TermV>)
    requires
        rs.len() >= 2,
        forall|i: int| 0 <= i < rs.len() ==> #[trigger] spec_stripped_rung(rs[i]),
    ensures
        spec_floor(TermV::Ladder(rs)).1 == rs.last(),
        spec_floor(TermV::Ladder(rs)).0 == if rs.len() == 2 { rs[0] } else { TermV::Ladder(rs.drop_last()) },
{
    let n = rs.len();
    let last = rs[n - 1];
    let pre = rs.subrange(0, n - 1);
    assert(spec_stripped_rung(last));
    assert(spec_floor(last) == (spec_unit(), spec_strip(last)));
    assert forall|i: int| 0 <= i < pre.len() implies #[trigger] spec_stripped_rung(pre[i]) by {
        assert(pre[i] == rs[i]);
    }
    lemma_rungs_id(pre);
    let y = pre.push(spec_unit());
    assert(y.subrange(0, y.len() - 1) =~= pre);
    assert(y[y.len() - 1] == spec_unit());
    assert(spec_all_empty(Seq::<TermV>::empty()));
    assert(spec_is_empty(spec_unit()));
    assert(spec_strip(spec_unit()) == spec_unit());
    assert(spec_strip_rungs(y) == pre);
    lemma_all_empty_each(y);
    assert(y[0] == rs[0]);
    assert(spec_stripped_rung(rs[0]));
    assert(!spec_is_empty(y[0]));
    assert(!spec_is_empty(TermV::Ladder(y)));
    assert(spec_strip(TermV::Ladder(y)) == if pre.len() == 1 { pre[0] } else { TermV::Ladder(pre) });
    assert(pre =~= rs.drop_last());
}

} // verus!
