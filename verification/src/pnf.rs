//! Parameter normal form (PNF): representations of parameters are pulled inside the
//! parameters, e.g. `<Seq <Digit 10>>~<Seq Char>` becomes `<Seq <Digit 10>~Char>`.

use vstd::prelude::*;
use crate::term::{TypeTerm, TermV, FieldV, StructMember, EnumVariant, term_view, terms_view, members_view, variants_view, opt_view, lemma_terms_view, lemma_terms_view_push, lemma_terms_view_prepend, lemma_terms_view_append, lemma_members_view, lemma_members_view_push, lemma_variants_view, lemma_variants_view_push, copy_terms, copy_prefix, same_terms, lemma_view_variant, lemma_opt_view};

use crate::semantics::{spec_first_index, spec_splice, spec_ladders_overlap, spec_matches_at, spec_overlaps, spec_all_overlap, spec_normalize, spec_normalize_seq, spec_normalize_fields, spec_normalize_opt, spec_normalize_pairs, spec_norm_loop, spec_norm_step, spec_find_field, spec_condense_fields, spec_condense_repr, ladder2, opt_or_unit, spec_step_seq_seq, spec_step_seq_spec, spec_step_record, spec_step_spec_spec, spec_step_ladder};
use crate::constraint_system::{STEP_BUDGET, subtype_unify_f};
use crate::semantics::spec_step_plain;
use crate::term_ops::{spec_strip, spec_strip_opt, spec_is_empty, spec_unit};

verus! {

//------------------------------------------------------------------
// Searching
//------------------------------------------------------------------

proof fn lemma_first_index(s: Seq<TermV>, x: TermV)
    ensures
        match spec_first_index(s, x) {
            Some(i) => 0 <= i < s.len() && s[i] == x && forall|j: int| 0 <= j < i ==> s[j] != x,
            None => forall|j: int| 0 <= j < s.len() ==> s[j] != x,
        },
    decreases s.len(),
{
    if s.len() > 0 {
        lemma_first_index(s.subrange(0, s.len() - 1), x);
        match spec_first_index(s.subrange(0, s.len() - 1), x) {
            Some(i) => {
                assert forall|j: int| 0 <= j < i implies s[j] != x by {
                    assert(s[j] == s.subrange(0, s.len() - 1)[j]);
                }
                assert(s[i] == s.subrange(0, s.len() - 1)[i]);
            },
            None => {
                assert forall|j: int| 0 <= j < s.len() - 1 implies s[j] != x by {
                    assert(s[j] == s.subrange(0, s.len() - 1)[j]);
                }
            },
        }
    }
}

pub proof fn lemma_find_field(s: Seq<FieldV>, sym: Seq<char>)
    ensures
        match spec_find_field(s, sym) {
            Some(i) => 0 <= i < s.len() && s[i].symbol == sym && forall|j: int| 0 <= j < i ==> s[j].symbol != sym,
            None => forall|j: int| 0 <= j < s.len() ==> s[j].symbol != sym,
        },
    decreases s.len(),
{
    if s.len() > 0 {
        lemma_find_field(s.subrange(0, s.len() - 1), sym);
        match spec_find_field(s.subrange(0, s.len() - 1), sym) {
            Some(i) => {
                assert forall|j: int| 0 <= j < i implies s[j].symbol != sym by {
                    assert(s[j] == s.subrange(0, s.len() - 1)[j]);
                }
                assert(s[i] == s.subrange(0, s.len() - 1)[i]);
            },
            None => {
                assert forall|j: int| 0 <= j < s.len() - 1 implies s[j].symbol != sym by {
                    assert(s[j] == s.subrange(0, s.len() - 1)[j]);
                }
            },
        }
    }
}

/// The first member of `m` with the given symbol.
pub fn find_member(m: &Vec<StructMember>, sym: &String) -> (r: Option<usize>)
    ensures
        match spec_find_field(members_view(m@), sym@) {
            Some(i) => r == Some(i as usize),
            None => r is None,
        },
        r matches Some(j) ==> j < m.len(),
{
    proof {
        lemma_members_view(m@);
        lemma_find_field(members_view(m@), sym@);
    }
    let mut j: usize = 0;
    while j < m.len()
        invariant
            j <= m.len(),
            members_view(m@).len() == m.len(),
            forall|k: int| 0 <= k < m.len() ==> #[trigger] members_view(m@)[k] == m@[k]@,
            forall|k: int| 0 <= k < j ==> members_view(m@)[k].symbol != sym@,
        decreases m.len() - j,
    {
        if m[j].symbol == *sym {
            assert(members_view(m@)[j as int].symbol == sym@);
            proof { lemma_find_field(members_view(m@), sym@); }
            return Some(j);
        }
        j += 1;
    }
    None
}

/// The first variant of `m` with the given symbol.
pub fn find_variant(m: &Vec<EnumVariant>, sym: &String) -> (r: Option<usize>)
    ensures
        match spec_find_field(variants_view(m@), sym@) {
            Some(i) => r == Some(i as usize),
            None => r is None,
        },
        r matches Some(j) ==> j < m.len(),
{
    proof {
        lemma_variants_view(m@);
        lemma_find_field(variants_view(m@), sym@);
    }
    let mut j: usize = 0;
    while j < m.len()
        invariant
            j <= m.len(),
            variants_view(m@).len() == m.len(),
            forall|k: int| 0 <= k < m.len() ==> #[trigger] variants_view(m@)[k] == m@[k]@,
            forall|k: int| 0 <= k < j ==> variants_view(m@)[k].symbol != sym@,
        decreases m.len() - j,
    {
        if m[j].symbol == *sym {
            assert(variants_view(m@)[j as int].symbol == sym@);
            proof { lemma_find_field(variants_view(m@), sym@); }
            return Some(j);
        }
        j += 1;
    }
    None
}

//------------------------------------------------------------------
// Splicing and overlap
//------------------------------------------------------------------

/// Joins two ladders: where the top rung of `lower` occurs in `upper`, `upper` is cut
/// before it and `lower` follows; otherwise `lower` is appended to `upper`.
pub fn splice_ladders(upper: Vec<TypeTerm>, lower: Vec<TypeTerm>) -> (r: Vec<TypeTerm>)
    ensures
        terms_view(r@) == spec_splice(terms_view(upper@), terms_view(lower@)),
{
    let ghost uv = terms_view(upper@);
    let ghost lv = terms_view(lower@);
    proof {
        lemma_terms_view(upper@);
        lemma_terms_view(lower@);
    }
    if lower.len() > 0 {
        proof { lemma_first_index(uv, lv[0]); }
        let mut i: usize = 0;
        while i < upper.len()
            invariant
                i <= upper.len(),
                uv == terms_view(upper@),
                lv == terms_view(lower@),
                uv.len() == upper.len(),
                lv.len() == lower.len(),
                lower.len() > 0,
                forall|k: int| 0 <= k < upper.len() ==> #[trigger] uv[k] == term_view(upper@[k]),
                forall|k: int| 0 <= k < lower.len() ==> #[trigger] lv[k] == term_view(lower@[k]),
                forall|k: int| 0 <= k < i ==> uv[k] != lv[0],
            decreases upper.len() - i,
        {
            if upper[i].same(&lower[0]) {
                proof {
                    lemma_first_index(uv, lv[0]);
                    assert(uv[i as int] == lv[0]);
                    assert(spec_first_index(uv, lv[0]) == Some(i as int));
                }
                let mut res = copy_prefix(&upper, i);
                let mut low = lower;
                proof { lemma_terms_view_append(res@, low@); }
                res.append(&mut low);
                return res;
            }
            i += 1;
        }
        let mut res = upper;
        let mut low = lower;
        proof { lemma_terms_view_append(res@, low@); }
        res.append(&mut low);
        res
    } else {
        upper
    }
}

/// Whether two terms overlap; `None` where the comparison reaches an unsupported case.
pub fn overlaps_core(a: &TypeTerm, b: &TypeTerm) -> (r: Option<bool>)
    ensures
        r == spec_overlaps(a@, b@),
    decreases a, b,
{
    match (a, b) {
        (TypeTerm::Ladder(rs1), TypeTerm::Ladder(rs2)) => Some(ladders_overlap(rs1, rs2)),
        (TypeTerm::Ladder(rs1), b) => {
            proof { lemma_terms_view(rs1@); }
            if rs1.len() == 0 {
                None
            } else {
                overlaps_core(&rs1[rs1.len() - 1], b)
            }
        },
        (a, TypeTerm::Ladder(rs2)) => {
            proof { lemma_terms_view(rs2@); }
            if rs2.len() == 0 {
                None
            } else {
                overlaps_core(a, &rs2[0])
            }
        },
        (TypeTerm::Spec(a1), TypeTerm::Spec(a2)) => {
            if same_terms(a1, a2) {
                let ghost s1 = terms_view(a1@);
                let ghost s2 = terms_view(a2@);
                proof {
                    lemma_terms_view(a1@);
                    lemma_terms_view(a2@);
                    assert(s1.subrange(0, s1.len() as int) =~= s1);
                    assert(s2.subrange(0, s2.len() as int) =~= s2);
                }
                let mut i: usize = 0;
                while i < a1.len() && i < a2.len()
                    invariant
                        i <= a1.len(),
                        i <= a2.len(),
                        s1 == terms_view(a1@),
                        s2 == terms_view(a2@),
                        s1.len() == a1.len(),
                        s2.len() == a2.len(),
                        forall|k: int| 0 <= k < a1.len() ==> #[trigger] s1[k] == term_view(a1@[k]),
                        forall|k: int| 0 <= k < a2.len() ==> #[trigger] s2[k] == term_view(a2@[k]),
                        s1 == s2,
                        *a == TypeTerm::Spec(*a1),
                        *b == TypeTerm::Spec(*a2),
                        spec_all_overlap(s1, s2) == spec_all_overlap(
                            s1.subrange(i as int, s1.len() as int),
                            s2.subrange(i as int, s2.len() as int),
                        ),
                    decreases a1.len() - i,
                {
                    let ghost t1 = s1.subrange(i as int, s1.len() as int);
                    let ghost t2 = s2.subrange(i as int, s2.len() as int);
                    assert(t1[0] == s1[i as int]);
                    assert(t2[0] == s2[i as int]);
                    assert(t1.subrange(1, t1.len() as int) =~= s1.subrange(i + 1, s1.len() as int));
                    assert(t2.subrange(1, t2.len() as int) =~= s2.subrange(i + 1, s2.len() as int));
                    match overlaps_core(&a1[i], &a2[i]) {
                        None => {
                            return None;
                        },
                        Some(false) => {
                            return Some(false);
                        },
                        Some(true) => {},
                    }
                    i += 1;
                }
                Some(true)
            } else {
                Some(false)
            }
        },
        (TypeTerm::Sequence { .. }, TypeTerm::Sequence { .. }) => None,
        (TypeTerm::Struct { .. }, TypeTerm::Struct { .. }) => None,
        (TypeTerm::Enum { .. }, TypeTerm::Enum { .. }) => None,
        (TypeTerm::Univ { .. }, TypeTerm::Univ { .. }) => None,
        (TypeTerm::Morph(..), TypeTerm::Morph(..)) => None,
        (TypeTerm::Func(..), TypeTerm::Func(..)) => None,
        (TypeTerm::Id(x), TypeTerm::Id(y)) => Some(*x == *y),
        (TypeTerm::Var(x), TypeTerm::Var(y)) => Some(*x == *y),
        (TypeTerm::Num(x), TypeTerm::Num(y)) => Some(*x == *y),
        (TypeTerm::Char(x), TypeTerm::Char(y)) => Some(*x == *y),
        _ => Some(false),
    }
}

fn ladders_overlap(rs1: &Vec<TypeTerm>, rs2: &Vec<TypeTerm>) -> (r: bool)
    ensures
        r == spec_ladders_overlap(terms_view(rs1@), terms_view(rs2@)),
{
    let ghost s1 = terms_view(rs1@);
    let ghost s2 = terms_view(rs2@);
    proof {
        lemma_terms_view(rs1@);
        lemma_terms_view(rs2@);
    }
    let mut i: usize = 0;
    while i < rs1.len()
        invariant
            i <= rs1.len(),
            s1 == terms_view(rs1@),
            s2 == terms_view(rs2@),
            s1.len() == rs1.len(),
            s2.len() == rs2.len(),
            forall|k: int| 0 <= k < rs1.len() ==> #[trigger] s1[k] == term_view(rs1@[k]),
            forall|k: int| 0 <= k < rs2.len() ==> #[trigger] s2[k] == term_view(rs2@[k]),
            forall|k: int| 0 <= k < i ==> !#[trigger] spec_matches_at(s1, s2, k),
        decreases rs1.len() - i,
    {
        let m = if rs1.len() - i < rs2.len() { rs1.len() - i } else { rs2.len() };
        let mut diff = false;
        let mut j: usize = 0;
        while j < m
            invariant
                j <= m,
                i < rs1.len(),
                m <= rs1.len() - i, m <= rs2.len(), (m == rs1.len() - i || m == rs2.len()),
                s1.len() == rs1.len(),
                s2.len() == rs2.len(),
                forall|k: int| 0 <= k < rs1.len() ==> #[trigger] s1[k] == term_view(rs1@[k]),
                forall|k: int| 0 <= k < rs2.len() ==> #[trigger] s2[k] == term_view(rs2@[k]),
                diff ==> !spec_matches_at(s1, s2, i as int),
                !diff ==> forall|k: int| 0 <= k < j ==> s1[i + k] == #[trigger] s2[k],
            decreases m - j,
        {
            if !rs1[i + j].same(&rs2[j]) {
                diff = true;
                assert(s1[i + j] != s2[j as int]);
            }
            j += 1;
        }
        if !diff {
            assert(spec_matches_at(s1, s2, i as int));
            return true;
        }
        i += 1;
    }
    false
}

/// Whether two terms overlap: two ladders overlap when a suffix of the first starts
/// like the second; a ladder and a term are compared at the touching rung.
pub fn overlaps(a: &TypeTerm, b: &TypeTerm) -> (r: bool)
    requires
        spec_overlaps(a@, b@) is Some,
    ensures
        r == spec_overlaps(a@, b@).unwrap(),
{
    overlaps_core(a, b).unwrap()
}


//------------------------------------------------------------------
// Failure propagation in the specification
//------------------------------------------------------------------

proof fn lemma_normalize_seq_none(s: Seq<TermV>, k: int, fuel: nat)
    requires
        0 <= k <= s.len(),
        spec_normalize_seq(s.subrange(0, k), fuel) is None,
    ensures
        spec_normalize_seq(s, fuel) is None,
    decreases s.len() - k,
{
    if k < s.len() {
        assert(s.subrange(0, k + 1).subrange(0, k) =~= s.subrange(0, k));
        lemma_normalize_seq_none(s, k + 1, fuel);
    } else {
        assert(s.subrange(0, k) =~= s);
    }
}

proof fn lemma_normalize_fields_none(s: Seq<FieldV>, k: int, fuel: nat)
    requires
        0 <= k <= s.len(),
        spec_normalize_fields(s.subrange(0, k), fuel) is None,
    ensures
        spec_normalize_fields(s, fuel) is None,
    decreases s.len() - k,
{
    if k < s.len() {
        assert(s.subrange(0, k + 1).subrange(0, k) =~= s.subrange(0, k));
        lemma_normalize_fields_none(s, k + 1, fuel);
    } else {
        assert(s.subrange(0, k) =~= s);
    }
}

proof fn lemma_normalize_pairs_none(a: Seq<TermV>, b: Seq<TermV>, k: int, fuel: nat)
    requires
        a.len() == b.len(),
        0 <= k <= a.len(),
        spec_normalize_pairs(a.subrange(0, k), b.subrange(0, k), fuel) is None,
    ensures
        spec_normalize_pairs(a, b, fuel) is None,
    decreases a.len() - k,
{
    if k < a.len() {
        assert(a.subrange(0, k + 1).subrange(0, k) =~= a.subrange(0, k));
        assert(b.subrange(0, k + 1).subrange(0, k) =~= b.subrange(0, k));
        lemma_normalize_pairs_none(a, b, k + 1, fuel);
    } else {
        assert(a.subrange(0, k) =~= a);
        assert(b.subrange(0, k) =~= b);
    }
}

proof fn lemma_condense_none(m1: Seq<FieldV>, m2: Seq<FieldV>, k: int, fuel: nat)
    requires
        0 <= k <= m2.len(),
        spec_condense_fields(m1, m2.subrange(0, k), fuel) is None,
    ensures
        spec_condense_fields(m1, m2, fuel) is None,
    decreases m2.len() - k,
{
    if k < m2.len() {
        assert(m2.subrange(0, k + 1).subrange(0, k) =~= m2.subrange(0, k));
        lemma_condense_none(m1, m2, k + 1, fuel);
    } else {
        assert(m2.subrange(0, k) =~= m2);
    }
}

//------------------------------------------------------------------
// Normalization
//------------------------------------------------------------------

pub open spec fn opt_term_view(o: Option<TypeTerm>) -> Option<TermV> {
    match o {
        Some(t) => Some(t@),
        None => None,
    }
}

/// `a ~ b`
pub fn ladder2_exec(a: TypeTerm, b: TypeTerm) -> (r: TypeTerm)
    ensures
        r@ == ladder2(a@, b@),
{
    let mut v: Vec<TypeTerm> = Vec::new();
    proof { lemma_terms_view_push(v@, a); }
    v.push(a);
    proof { lemma_terms_view_push(v@, b); }
    v.push(b);
    proof { lemma_terms_view(v@); }
    let r = TypeTerm::Ladder(v);
    assert(terms_view(v@) =~= seq![a@, b@]);
    r
}

/// The boxed term, or the unit type.
pub fn opt_or_unit_exec(o: &Option<Box<TypeTerm>>) -> (r: TypeTerm)
    ensures
        r@ == opt_or_unit(opt_view(*o)),
{
    match o {
        Some(b) => b.copy(),
        None => TypeTerm::unit(),
    }
}

fn normalize_opt(o: &Option<Box<TypeTerm>>, fuel: u64) -> (r: Option<Option<Box<TypeTerm>>>)
    ensures
        spec_normalize_opt(opt_view(*o), fuel as nat) == match r {
            Some(x) => Some(opt_view(x)),
            None => None,
        },
    decreases fuel, 1nat,
{
    match o {
        Some(b) => match b.normalize_core(fuel) {
            Some(n) => Some(Some(Box::new(n))),
            None => None,
        },
        None => Some(None),
    }
}

fn normalize_members(v: &Vec<StructMember>, fuel: u64) -> (r: Option<Vec<StructMember>>)
    ensures
        spec_normalize_fields(members_view(v@), fuel as nat) == match r {
            Some(x) => Some(members_view(x@)),
            None => None,
        },
    decreases fuel, 1nat,
{
    let ghost sv = members_view(v@);
    proof { lemma_members_view(v@); }
    let mut r: Vec<StructMember> = Vec::new();
    let mut i: usize = 0;
    assert(members_view(r@) =~= Seq::<FieldV>::empty());
    assert(sv.subrange(0, 0) =~= Seq::<FieldV>::empty());
    while i < v.len()
        invariant
            i <= v.len(),
            sv == members_view(v@),
            sv.len() == v.len(),
            forall|j: int| 0 <= j < v.len() ==> #[trigger] sv[j] == v@[j]@,
            spec_normalize_fields(sv.subrange(0, i as int), fuel as nat) == Some(members_view(r@)),
        decreases v.len() - i,
    {
        assert(sv.subrange(0, i + 1).subrange(0, i as int) =~= sv.subrange(0, i as int));
        match v[i].ty.normalize_core(fuel) {
            Some(n) => {
                let m = StructMember { symbol: v[i].symbol.clone(), ty: n };
                proof { lemma_members_view_push(r@, m); }
                r.push(m);
            },
            None => {
                proof { lemma_normalize_fields_none(sv, i + 1, fuel as nat); }
                return None;
            },
        }
        i += 1;
    }
    assert(sv.subrange(0, v.len() as int) =~= sv);
    Some(r)
}

fn normalize_variants(v: &Vec<EnumVariant>, fuel: u64) -> (r: Option<Vec<EnumVariant>>)
    ensures
        spec_normalize_fields(variants_view(v@), fuel as nat) == match r {
            Some(x) => Some(variants_view(x@)),
            None => None,
        },
    decreases fuel, 1nat,
{
    let ghost sv = variants_view(v@);
    proof { lemma_variants_view(v@); }
    let mut r: Vec<EnumVariant> = Vec::new();
    let mut i: usize = 0;
    assert(variants_view(r@) =~= Seq::<FieldV>::empty());
    assert(sv.subrange(0, 0) =~= Seq::<FieldV>::empty());
    while i < v.len()
        invariant
            i <= v.len(),
            sv == variants_view(v@),
            sv.len() == v.len(),
            forall|j: int| 0 <= j < v.len() ==> #[trigger] sv[j] == v@[j]@,
            spec_normalize_fields(sv.subrange(0, i as int), fuel as nat) == Some(variants_view(r@)),
        decreases v.len() - i,
    {
        assert(sv.subrange(0, i + 1).subrange(0, i as int) =~= sv.subrange(0, i as int));
        match v[i].ty.normalize_core(fuel) {
            Some(n) => {
                let m = EnumVariant { symbol: v[i].symbol.clone(), ty: n };
                proof { lemma_variants_view_push(r@, m); }
                r.push(m);
            },
            None => {
                proof { lemma_normalize_fields_none(sv, i + 1, fuel as nat); }
                return None;
            },
        }
        i += 1;
    }
    assert(sv.subrange(0, v.len() as int) =~= sv);
    Some(r)
}

fn normalize_seq(v: &Vec<TypeTerm>, fuel: u64) -> (r: Option<Vec<TypeTerm>>)
    ensures
        spec_normalize_seq(terms_view(v@), fuel as nat) == match r {
            Some(x) => Some(terms_view(x@)),
            None => None,
        },
    decreases fuel, 1nat,
{
    let ghost sv = terms_view(v@);
    proof { lemma_terms_view(v@); }
    let mut r: Vec<TypeTerm> = Vec::new();
    let mut i: usize = 0;
    assert(terms_view(r@) =~= Seq::<TermV>::empty());
    assert(sv.subrange(0, 0) =~= Seq::<TermV>::empty());
    while i < v.len()
        invariant
            i <= v.len(),
            sv == terms_view(v@),
            sv.len() == v.len(),
            forall|j: int| 0 <= j < v.len() ==> #[trigger] sv[j] == term_view(v@[j]),
            spec_normalize_seq(sv.subrange(0, i as int), fuel as nat) == Some(terms_view(r@)),
        decreases v.len() - i,
    {
        assert(sv.subrange(0, i + 1).subrange(0, i as int) =~= sv.subrange(0, i as int));
        match v[i].normalize_core(fuel) {
            Some(n) => {
                proof { lemma_terms_view_push(r@, n); }
                r.push(n);
            },
            None => {
                proof { lemma_normalize_seq_none(sv, i + 1, fuel as nat); }
                return None;
            },
        }
        i += 1;
    }
    assert(sv.subrange(0, v.len() as int) =~= sv);
    Some(r)
}

fn normalize_pairs(a: &Vec<TypeTerm>, b: &Vec<TypeTerm>, fuel: u64) -> (r: Option<Vec<TypeTerm>>)
    requires
        a.len() == b.len(),
    ensures
        spec_normalize_pairs(terms_view(a@), terms_view(b@), fuel as nat) == match r {
            Some(x) => Some(terms_view(x@)),
            None => None,
        },
    decreases fuel, 1nat,
{
    let ghost sa = terms_view(a@);
    let ghost sb = terms_view(b@);
    proof {
        lemma_terms_view(a@);
        lemma_terms_view(b@);
    }
    let mut r: Vec<TypeTerm> = Vec::new();
    let mut i: usize = 0;
    assert(terms_view(r@) =~= Seq::<TermV>::empty());
    while i < a.len()
        invariant
            i <= a.len(),
            a.len() == b.len(),
            sa == terms_view(a@),
            sb == terms_view(b@),
            sa.len() == a.len(),
            sb.len() == b.len(),
            forall|j: int| 0 <= j < a.len() ==> #[trigger] sa[j] == term_view(a@[j]),
            forall|j: int| 0 <= j < b.len() ==> #[trigger] sb[j] == term_view(b@[j]),
            spec_normalize_pairs(sa.subrange(0, i as int), sb.subrange(0, i as int), fuel as nat) == Some(terms_view(r@)),
        decreases a.len() - i,
    {
        assert(sa.subrange(0, i + 1).subrange(0, i as int) =~= sa.subrange(0, i as int));
        assert(sb.subrange(0, i + 1).subrange(0, i as int) =~= sb.subrange(0, i as int));
        let l = ladder2_exec(a[i].copy(), b[i].copy());
        match l.normalize_core(fuel) {
            Some(n) => {
                proof { lemma_terms_view_push(r@, n); }
                r.push(n);
            },
            None => {
                proof { lemma_normalize_pairs_none(sa, sb, i + 1, fuel as nat); }
                return None;
            },
        }
        i += 1;
    }
    assert(sa.subrange(0, a.len() as int) =~= sa);
    assert(sb.subrange(0, b.len() as int) =~= sb);
    Some(r)
}

fn condense_repr(sr1: &Option<Box<TypeTerm>>, sr2: &Option<Box<TypeTerm>>, fuel: u64) -> (r: Option<Option<Box<TypeTerm>>>)
    ensures
        spec_condense_repr(opt_view(*sr1), opt_view(*sr2), fuel as nat) == match r {
            Some(x) => Some(opt_view(x)),
            None => None,
        },
    decreases fuel, 1nat,
{
    match sr1 {
        Some(a) => match sr2 {
            Some(b) => match ladder2_exec(a.copy(), b.copy()).normalize_core(fuel) {
                Some(n) => Some(Some(Box::new(n))),
                None => None,
            },
            None => Some(Some(Box::new(a.copy()))),
        },
        None => Some(copy_opt_box(sr2)),
    }
}

fn copy_opt_box(o: &Option<Box<TypeTerm>>) -> (r: Option<Box<TypeTerm>>)
    ensures
        opt_view(r) == opt_view(*o),
{
    match o {
        Some(b) => Some(Box::new(b.copy())),
        None => None,
    }
}

fn condense_members(m1: &Vec<StructMember>, m2: &Vec<StructMember>, fuel: u64) -> (r: Option<(Vec<StructMember>, bool)>)
    ensures
        spec_condense_fields(members_view(m1@), members_view(m2@), fuel as nat) == match r {
            Some((x, b)) => Some((members_view(x@), b)),
            None => None,
        },
    decreases fuel, 1nat,
{
    let ghost s1 = members_view(m1@);
    let ghost s2 = members_view(m2@);
    proof {
        lemma_members_view(m1@);
        lemma_members_view(m2@);
    }
    let mut acc: Vec<StructMember> = Vec::new();
    let mut brk = false;
    let mut k: usize = 0;
    assert(members_view(acc@) =~= Seq::<FieldV>::empty());
    assert(s2.subrange(0, 0) =~= Seq::<FieldV>::empty());
    while k < m2.len()
        invariant
            k <= m2.len(),
            s1 == members_view(m1@),
            s2 == members_view(m2@),
            s1.len() == m1.len(),
            s2.len() == m2.len(),
            forall|j: int| 0 <= j < m1.len() ==> #[trigger] s1[j] == m1@[j]@,
            forall|j: int| 0 <= j < m2.len() ==> #[trigger] s2[j] == m2@[j]@,
            spec_condense_fields(s1, s2.subrange(0, k as int), fuel as nat) == Some((members_view(acc@), brk)),
        decreases m2.len() - k,
    {
        assert(s2.subrange(0, k + 1).subrange(0, k as int) =~= s2.subrange(0, k as int));
        assert(s2.subrange(0, k + 1)[k as int] == s2[k as int]);
        let ghost sub = s2.subrange(0, k + 1);
        let ghost acc0 = members_view(acc@);
        let ghost brk0 = brk;
        assert(sub.len() == k + 1);
        assert(s2[k as int] == m2@[k as int]@);
        proof { lemma_find_field(s1, s2[k as int].symbol); }
        match find_member(m1, &m2[k].symbol) {
            Some(j) => {
                assert(s1[j as int] == m1@[j as int]@);
                let l = ladder2_exec(m1[j].ty.copy(), m2[k].ty.copy());
                assert(l@ == ladder2(s1[j as int].ty, s2[k as int].ty));
                match l.normalize_core(fuel) {
                    Some(n) => {
                        let m = StructMember { symbol: m1[j].symbol.clone(), ty: n };
                        assert(m@ == (FieldV { symbol: s1[j as int].symbol, ty: n@ }));
                        proof { lemma_members_view_push(acc@, m); }
                        acc.push(m);
                        assert(spec_condense_fields(s1, sub, fuel as nat)
                            == Some((acc0.push(FieldV { symbol: s1[j as int].symbol, ty: n@ }), brk0)));
                    },
                    None => {
                        assert(spec_condense_fields(s1, sub, fuel as nat) is None);
                        proof { lemma_condense_none(s1, s2, k + 1, fuel as nat); }
                        return None;
                    },
                }
            },
            None => {
                brk = true;
                assert(spec_condense_fields(s1, sub, fuel as nat) == Some((acc0, true)));
            },
        }
        k += 1;
    }
    assert(s2.subrange(0, m2.len() as int) =~= s2);
    Some((acc, brk))
}

fn condense_variants(m1: &Vec<EnumVariant>, m2: &Vec<EnumVariant>, fuel: u64) -> (r: Option<(Vec<EnumVariant>, bool)>)
    ensures
        spec_condense_fields(variants_view(m1@), variants_view(m2@), fuel as nat) == match r {
            Some((x, b)) => Some((variants_view(x@), b)),
            None => None,
        },
    decreases fuel, 1nat,
{
    let ghost s1 = variants_view(m1@);
    let ghost s2 = variants_view(m2@);
    proof {
        lemma_variants_view(m1@);
        lemma_variants_view(m2@);
    }
    let mut acc: Vec<EnumVariant> = Vec::new();
    let mut brk = false;
    let mut k: usize = 0;
    assert(variants_view(acc@) =~= Seq::<FieldV>::empty());
    assert(s2.subrange(0, 0) =~= Seq::<FieldV>::empty());
    while k < m2.len()
        invariant
            k <= m2.len(),
            s1 == variants_view(m1@),
            s2 == variants_view(m2@),
            s1.len() == m1.len(),
            s2.len() == m2.len(),
            forall|j: int| 0 <= j < m1.len() ==> #[trigger] s1[j] == m1@[j]@,
            forall|j: int| 0 <= j < m2.len() ==> #[trigger] s2[j] == m2@[j]@,
            spec_condense_fields(s1, s2.subrange(0, k as int), fuel as nat) == Some((variants_view(acc@), brk)),
        decreases m2.len() - k,
    {
        assert(s2.subrange(0, k + 1).subrange(0, k as int) =~= s2.subrange(0, k as int));
        assert(s2.subrange(0, k + 1)[k as int] == s2[k as int]);
        let ghost sub = s2.subrange(0, k + 1);
        let ghost acc0 = variants_view(acc@);
        let ghost brk0 = brk;
        assert(sub.len() == k + 1);
        assert(s2[k as int] == m2@[k as int]@);
        proof { lemma_find_field(s1, s2[k as int].symbol); }
        match find_variant(m1, &m2[k].symbol) {
            Some(j) => {
                assert(s1[j as int] == m1@[j as int]@);
                let l = ladder2_exec(m1[j].ty.copy(), m2[k].ty.copy());
                assert(l@ == ladder2(s1[j as int].ty, s2[k as int].ty));
                match l.normalize_core(fuel) {
                    Some(n) => {
                        let m = EnumVariant { symbol: m1[j].symbol.clone(), ty: n };
                        assert(m@ == (FieldV { symbol: s1[j as int].symbol, ty: n@ }));
                        proof { lemma_variants_view_push(acc@, m); }
                        acc.push(m);
                        assert(spec_condense_fields(s1, sub, fuel as nat)
                            == Some((acc0.push(FieldV { symbol: s1[j as int].symbol, ty: n@ }), brk0)));
                    },
                    None => {
                        assert(spec_condense_fields(s1, sub, fuel as nat) is None);
                        proof { lemma_condense_none(s1, s2, k + 1, fuel as nat); }
                        return None;
                    },
                }
            },
            None => {
                brk = true;
                assert(spec_condense_fields(s1, sub, fuel as nat) == Some((acc0, true)));
            },
        }
        k += 1;
    }
    assert(s2.subrange(0, m2.len() as int) =~= s2);
    Some((acc, brk))
}

/// The merge step of two sequence rungs.
fn step_seq_seq(r1: &TypeTerm, r2: &TypeTerm, fuel: u64) -> (r: Option<(Option<TypeTerm>, TypeTerm)>)
    ensures
        spec_step_seq_seq(r1@, r2@, fuel as nat) == match r {
            Some((p, t)) => Some((opt_term_view(p), t@)),
            None => None,
        },
    decreases fuel, 2nat,
{
    proof {
        lemma_view_variant(r1);
        lemma_view_variant(r2);
    }
    match (r1, r2) {
        (TypeTerm::Sequence { seq_repr: sr1, item: i1 }, TypeTerm::Sequence { seq_repr: sr2, item: i2 }) => {
            let repr: Option<Box<TypeTerm>> = if sr1.is_some() || sr2.is_some() {
                let s1 = opt_or_unit_exec(sr1);
                let s2 = opt_or_unit_exec(sr2);
                if s1.same(&s2) {
                    Some(Box::new(s1))
                } else if s1.same(&TypeTerm::unit()) {
                    Some(Box::new(s2))
                } else {
                    match ladder2_exec(s1, s2).normalize_core(fuel) {
                        Some(n) => Some(Box::new(n)),
                        None => {
                            return None;
                        },
                    }
                }
            } else {
                None
            };
            let item: TypeTerm = if i1.same(i2) {
                i1.copy()
            } else {
                match ladder2_exec(i1.copy(), i2.copy()).normalize_core(fuel) {
                    Some(n) => n,
                    None => {
                        return None;
                    },
                }
            };
            proof { lemma_opt_view(repr); }
            Some((None, TypeTerm::Sequence { seq_repr: repr, item: Box::new(item) }))
        },
        _ => None,
    }
}

/// The merge step of a sequence rung above a two-parameter application.
fn step_seq_spec(r1: &TypeTerm, r2: &TypeTerm, fuel: u64) -> (r: Option<(Option<TypeTerm>, TypeTerm)>)
    ensures
        spec_step_seq_spec(r1@, r2@, fuel as nat) == match r {
            Some((p, t)) => Some((opt_term_view(p), t@)),
            None => None,
        },
    decreases fuel, 2nat,
{
    proof {
        lemma_view_variant(r1);
        lemma_view_variant(r2);
    }
    match (r1, r2) {
        (TypeTerm::Sequence { seq_repr, item }, TypeTerm::Spec(args)) => {
            proof { lemma_terms_view(args@); }
            assert(r1@ == TermV::Sequence { repr: opt_view(*seq_repr), item: Box::new(term_view(**item)) });
            assert(r2@ == TermV::Spec(terms_view(args@)));
            if args.len() == 2 {
                assert(terms_view(args@)[1] == args@[1]@);
                match overlaps_core(item, &args[1]) {
                    None => None,
                    Some(true) => {
                        let a = match ladder2_exec(opt_or_unit_exec(seq_repr), args[0].copy()).normalize_core(fuel) {
                            Some(n) => n,
                            None => {
                                return None;
                            },
                        };
                        let b = match ladder2_exec(item.copy(), args[1].copy()).normalize_core(fuel) {
                            Some(n) => n,
                            None => {
                                return None;
                            },
                        };
                        let ghost ra = Some(Box::new(a));
                        proof { lemma_opt_view(ra); }
                        Some((None, TypeTerm::Sequence { seq_repr: Some(Box::new(a)), item: Box::new(b) }))
                    },
                    Some(false) => Some((Some(r2.copy()), r1.copy())),
                }
            } else {
                Some((Some(r2.copy()), r1.copy()))
            }
        },
        _ => None,
    }
}

/// The merge step of two struct rungs or of two enum rungs.
fn step_record(r1: &TypeTerm, r2: &TypeTerm, fuel: u64) -> (r: Option<(Option<TypeTerm>, TypeTerm)>)
    ensures
        spec_step_record(r1@, r2@, fuel as nat) == match r {
            Some((p, t)) => Some((opt_term_view(p), t@)),
            None => None,
        },
    decreases fuel, 2nat,
{
    proof {
        lemma_view_variant(r1);
        lemma_view_variant(r2);
    }
    match (r1, r2) {
        (TypeTerm::Struct { struct_repr: sr1, members: m1 }, TypeTerm::Struct { struct_repr: sr2, members: m2 }) => {
            let cr = match condense_repr(sr1, sr2, fuel) {
                Some(x) => x,
                None => {
                    return None;
                },
            };
            match condense_members(m1, m2, fuel) {
                Some((cm, brk)) => if brk {
                    Some((Some(r2.copy()), r1.copy()))
                } else {
                    Some((None, TypeTerm::Struct { struct_repr: cr, members: cm }))
                },
                None => None,
            }
        },
        (TypeTerm::Enum { enum_repr: sr1, variants: m1 }, TypeTerm::Enum { enum_repr: sr2, variants: m2 }) => {
            let cr = match condense_repr(sr1, sr2, fuel) {
                Some(x) => x,
                None => {
                    return None;
                },
            };
            match condense_variants(m1, m2, fuel) {
                Some((cm, brk)) => if brk {
                    Some((Some(r2.copy()), r1.copy()))
                } else {
                    Some((None, TypeTerm::Enum { enum_repr: cr, variants: cm }))
                },
                None => None,
            }
        },
        _ => None,
    }
}

/// The merge step of two applications.
fn step_spec_spec(r1: &TypeTerm, r2: &TypeTerm, fuel: u64) -> (r: Option<(Option<TypeTerm>, TypeTerm)>)
    ensures
        spec_step_spec_spec(r1@, r2@, fuel as nat) == match r {
            Some((p, t)) => Some((opt_term_view(p), t@)),
            None => None,
        },
    decreases fuel, 2nat,
{
    proof {
        lemma_view_variant(r1);
        lemma_view_variant(r2);
    }
    match (r1, r2) {
        (TypeTerm::Spec(a1), TypeTerm::Spec(a2)) => {
            proof {
                lemma_terms_view(a1@);
                lemma_terms_view(a2@);
            }
            if a1.len() == a2.len() {
                if a1.len() == 0 {
                    None
                } else {
                    match subtype_unify_f(&a1[0], &a2[0], fuel) {
                        None => None,
                        Some(Ok(_)) => match normalize_pairs(a1, a2, fuel) {
                            Some(ps) => Some((None, TypeTerm::Spec(ps))),
                            None => None,
                        },
                        Some(Err(_)) => Some((Some(r2.copy()), r1.copy())),
                    }
                }
            } else {
                Some((Some(r2.copy()), r1.copy()))
            }
        },
        _ => None,
    }
}

/// The merge step where one of the rungs is itself a ladder.
fn step_ladder(r1: &TypeTerm, r2: &TypeTerm, fuel: u64) -> (r: Option<(Option<TypeTerm>, TypeTerm)>)
    ensures
        spec_step_ladder(r1@, r2@, fuel as nat) == match r {
            Some((p, t)) => Some((opt_term_view(p), t@)),
            None => None,
        },
    decreases fuel, 2nat,
{
    proof {
        lemma_view_variant(r1);
        lemma_view_variant(r2);
    }
    match (r1, r2) {
        (TypeTerm::Ladder(rr1), TypeTerm::Ladder(rr2)) => {
            proof { lemma_terms_view(rr1@); }
            if rr1.len() > 0 {
                let l = splice_ladders(copy_terms(rr1), copy_terms(rr2));
                match TypeTerm::Ladder(l).normalize_core(fuel) {
                    Some(n) => Some((None, n)),
                    None => None,
                }
            } else {
                Some((None, r2.copy()))
            }
        },
        (a1, TypeTerm::Ladder(rr2)) => {
            proof { lemma_terms_view(rr2@); }
            let rr: Vec<TypeTerm> = if !a1.is_empty() && !(rr2.len() > 0 && rr2[0].same(a1)) {
                let mut v = copy_terms(rr2);
                let x = a1.copy();
                proof { lemma_terms_view_prepend(v@, x); }
                v.insert(0, x);
                v
            } else {
                copy_terms(rr2)
            };
            match TypeTerm::Ladder(rr).normalize_core(fuel) {
                Some(n) => Some((None, n)),
                None => None,
            }
        },
        (TypeTerm::Ladder(rr1), a2) => {
            proof { lemma_terms_view(rr1@); }
            let rr: Vec<TypeTerm> = if !a2.is_empty() && !(rr1.len() > 0 && rr1[rr1.len() - 1].same(a2)) {
                let mut v = copy_terms(rr1);
                let x = a2.copy();
                proof { lemma_terms_view_push(v@, x); }
                v.push(x);
                v
            } else {
                copy_terms(rr1)
            };
            match TypeTerm::Ladder(rr).normalize_core(fuel) {
                Some(n) => Some((None, n)),
                None => None,
            }
        },
        _ => None,
    }
}

/// One merge step of two adjacent (stripped) rungs `r1` above `r2`.
fn norm_step_f(r1: TypeTerm, r2: TypeTerm, fuel0: u64) -> (r: Option<(Option<TypeTerm>, TypeTerm)>)
    ensures
        spec_norm_step(r1@, r2@, fuel0 as nat) == match r {
            Some((p, t)) => Some((opt_term_view(p), t@)),
            None => None,
        },
    decreases fuel0, 0nat,
{
    if fuel0 == 0 {
        return None;
    }
    let fuel = fuel0 - 1;
    proof {
        lemma_view_variant(&r1);
        lemma_view_variant(&r2);
    }
    match (&r1, &r2) {
        (TypeTerm::Sequence { .. }, TypeTerm::Sequence { .. }) => step_seq_seq(&r1, &r2, fuel),
        (TypeTerm::Sequence { .. }, TypeTerm::Spec(..)) => step_seq_spec(&r1, &r2, fuel),
        (TypeTerm::Struct { .. }, TypeTerm::Struct { .. }) => step_record(&r1, &r2, fuel),
        (TypeTerm::Enum { .. }, TypeTerm::Enum { .. }) => step_record(&r1, &r2, fuel),
        (TypeTerm::Spec(..), TypeTerm::Spec(..)) => step_spec_spec(&r1, &r2, fuel),
        (TypeTerm::Univ { .. }, TypeTerm::Univ { .. }) => None,
        (TypeTerm::Func(..), TypeTerm::Func(..)) => None,
        (TypeTerm::Morph(..), TypeTerm::Morph(..)) => None,
        (TypeTerm::Ladder(..), _) => step_ladder(&r1, &r2, fuel),
        (_, TypeTerm::Ladder(..)) => step_ladder(&r1, &r2, fuel),
        (a1, a2) => {
            if a1.is_empty() {
                Some((None, r2.copy()))
            } else if a1.same(a2) {
                Some((None, r2.copy()))
            } else if a2.is_empty() {
                Some((None, a1.copy()))
            } else {
                Some((Some(a2.copy()), a1.copy()))
            }
        },
    }
}

impl TypeTerm {
    /// Parameter normal form within a step budget; `None` when the budget runs out or an
    /// unsupported case is reached.
    pub fn normalize_core(&self, fuel: u64) -> (r: Option<TypeTerm>)
        ensures
            spec_normalize(self@, fuel as nat) == opt_term_view(r),
        decreases fuel, 0nat,
    {
        if fuel == 0 {
            return None;
        }
        let f = fuel - 1;
        match self {
            TypeTerm::Ladder(rungs) => {
                proof { lemma_terms_view(rungs@); }
                if rungs.len() == 0 {
                    return Some(TypeTerm::unit());
                }
                if rungs.len() == 1 {
                    return rungs[0].normalize_core(f);
                }
                let ghost tv = terms_view(rungs@);
                let n = rungs.len() - 1;
                let mut r2 = rungs[n].strip_ref();
                let mut acc: Vec<TypeTerm> = Vec::new();
                let mut k: usize = n;
                assert(terms_view(acc@) =~= Seq::<TermV>::empty());
                let ghost target = spec_norm_loop(tv.subrange(0, n as int), r2@, Seq::empty(), f as nat);
                assert(target == spec_normalize(self@, fuel as nat));
                while k > 0
                    invariant
                        k <= n,
                        f + 1 == fuel,
                        target == spec_normalize(self@, fuel as nat),
                        n + 1 == rungs.len(),
                        tv == terms_view(rungs@),
                        tv.len() == rungs.len(),
                        forall|j: int| 0 <= j < rungs.len() ==> #[trigger] tv[j] == term_view(rungs@[j]),
                        spec_norm_loop(tv.subrange(0, k as int), r2@, terms_view(acc@), f as nat) == target,
                    decreases k,
                {
                    let ghost rest = tv.subrange(0, k as int);
                    assert(rest.subrange(0, rest.len() - 1) =~= tv.subrange(0, k - 1));
                    assert(rest[rest.len() - 1] == tv[k - 1]);
                    let r1 = rungs[k - 1].strip_ref();
                    match norm_step_f(r1, r2, f) {
                        None => {
                            return None;
                        },
                        Some((pushed, r2n)) => {
                            match pushed {
                                Some(p) => {
                                    proof { lemma_terms_view_prepend(acc@, p); }
                                    acc.insert(0, p);
                                },
                                None => {},
                            }
                            r2 = r2n;
                        },
                    }
                    k -= 1;
                }
                assert(tv.subrange(0, 0) =~= Seq::<TermV>::empty());
                proof { lemma_terms_view(acc@); }
                if acc.len() > 0 {
                    proof { lemma_terms_view_prepend(acc@, r2); }
                    acc.insert(0, r2);
                    Some(TypeTerm::Ladder(acc))
                } else {
                    Some(r2)
                }
            },
            TypeTerm::Spec(params) => match normalize_seq(params, f) {
                Some(ps) => Some(TypeTerm::Spec(ps)),
                None => None,
            },
            TypeTerm::Sequence { seq_repr, item } => {
                let r = match normalize_opt(seq_repr, f) {
                    Some(r) => r,
                    None => {
                        return None;
                    },
                };
                match item.normalize_core(f) {
                    Some(i) => Some(TypeTerm::Sequence { seq_repr: r, item: Box::new(i) }),
                    None => None,
                }
            },
            TypeTerm::Struct { struct_repr, members } => {
                let r = match normalize_opt(struct_repr, f) {
                    Some(r) => r,
                    None => {
                        return None;
                    },
                };
                match normalize_members(members, f) {
                    Some(m) => Some(TypeTerm::Struct { struct_repr: r, members: m }),
                    None => None,
                }
            },
            TypeTerm::Enum { enum_repr, variants } => {
                let r = match normalize_opt(enum_repr, f) {
                    Some(r) => r,
                    None => {
                        return None;
                    },
                };
                match normalize_variants(variants, f) {
                    Some(m) => Some(TypeTerm::Enum { enum_repr: r, variants: m }),
                    None => None,
                }
            },
            _ => Some(self.copy()),
        }
    }

    /// Parameter normal form, or `None` where the computation would not finish
    /// within the step budget or reaches an unsupported case.
    pub fn try_normalize(&self) -> (r: Option<TypeTerm>)
        ensures
            spec_normalize(self@, STEP_BUDGET as nat) == opt_term_view(r),
    {
        self.normalize_core(STEP_BUDGET)
    }

    /// Transmutes the term into parameter normal form (PNF): the representations of
    /// parameters are pulled into the parameters, e.g.
    /// `<Seq <Digit 10>>~<Seq Char>` becomes `<Seq <Digit 10>~Char>`.
    pub fn normalize(self) -> (r: TypeTerm)
        requires
            spec_normalize(self@, STEP_BUDGET as nat) is Some,
        ensures
            spec_normalize(self@, STEP_BUDGET as nat) == Some(r@),
    {
        match self.normalize_core(STEP_BUDGET) {
            Some(t) => t,
            None => self,
        }
    }
}
//------------------------------------------------------------------
// Law: merging two sequence rungs keeps the order of representation
//------------------------------------------------------------------

/// A rung that no merge rule looks into: a constant, variable, number, character or
/// application, already stripped and not empty.
pub open spec fn spec_plain_rung(x: TermV) -> bool {
    &&& (x is Id || x is Var || x is Num || x is Char || x is Spec)
    &&& spec_strip(x) == x
    &&& !spec_is_empty(x)
}

/// Two plain rungs that are merged as they stand: not both applications.
pub open spec fn spec_plain_pair(x: TermV, y: TermV) -> bool {
    spec_plain_rung(x) && spec_plain_rung(y) && !(x is Spec && y is Spec)
}

/// The sequence `[x]`, with representation `repr` where there is one.
pub open spec fn spec_sequence_of(repr: Option<TermV>, x: TermV) -> TermV {
    TermV::Sequence {
        repr: match repr {
            Some(r) => Some(Box::new(r)),
            None => None,
        },
        item: Box::new(x),
    }
}

/// `x` above `y`: the ladder `x~y`, or `x` alone where the two are equal.
pub open spec fn spec_above(x: TermV, y: TermV) -> TermV {
    if x == y { x } else { ladder2(x, y) }
}

/// A ladder of two distinct plain rungs (not both applications) is its own parameter
/// normal form: the rungs stay, the upper one first; it takes two steps of the budget.
pub proof fn law_normalize_plain_pair(a: TermV, b: TermV, g: nat)
    requires
        spec_plain_pair(a, b),
        a != b,
    ensures
        spec_normalize(ladder2(a, b), g) == if g >= 2 { Some(ladder2(a, b)) } else { None::<TermV> },
{
    if g >= 1 {
        let h = (g - 1) as nat;
        let ab = seq![a, b];
        assert(ab.subrange(0, 1) =~= seq![a]);
        assert(ab[1] == b);
        assert(seq![a].subrange(0, 0) =~= Seq::<TermV>::empty());
        assert(seq![a][0] == a);
        assert(spec_normalize(ladder2(a, b), g) == spec_norm_loop(seq![a], b, Seq::empty(), h));
        if h >= 1 {
            assert(spec_step_plain(a, b) == Some((Some(b), a)));
            assert(spec_norm_step(a, b, h) == spec_step_plain(a, b));
            assert(seq![a] + (seq![b] + Seq::<TermV>::empty()) =~= seq![a, b]);
            assert(spec_norm_loop(Seq::<TermV>::empty(), a, seq![b] + Seq::<TermV>::empty(), h)
                == Some(TermV::Ladder(seq![a, b])));
        }
    }
}

/// Normalizing `[a]~[b]` (with representations `ra` and `rb`, or without either) merges
/// the two sequence rungs into one sequence whose item is the ladder `a~b`, the upper item
/// on top and the lower below it, and whose representation is likewise `ra~rb` (an item
/// or representation stays alone where both are equal).  This holds of plain items and
/// representations that are not both applications; the merge needs four steps of the
/// budget and fails with fewer.
pub proof fn law_normalize_sequence_items_in_order(ra: Option<TermV>, rb: Option<TermV>, a: TermV, b: TermV, fuel: nat)
    requires
        spec_plain_pair(a, b),
        ra is Some <==> rb is Some,
        ra is Some ==> spec_plain_pair(ra->0, rb->0),
    ensures
        match spec_normalize(TermV::Ladder(seq![spec_sequence_of(ra, a), spec_sequence_of(rb, b)]), fuel) {
            Some(x) => x == spec_sequence_of(
                match (ra, rb) {
                    (Some(x1), Some(x2)) => Some(spec_above(x1, x2)),
                    _ => None,
                },
                spec_above(a, b),
            ),
            None => fuel < 4,
        },
{
    let sa = spec_sequence_of(ra, a);
    let sb = spec_sequence_of(rb, b);
    let rungs = seq![sa, sb];
    assert(!spec_is_empty(sa));
    assert(!spec_is_empty(sb));
    assert(spec_strip_opt(None) == None::<Box<TermV>>);
    if let Some(x1) = ra {
        assert(spec_strip_opt(Some(Box::new(x1))) == Some(Box::new(x1)));
    }
    if let Some(x2) = rb {
        assert(spec_strip_opt(Some(Box::new(x2))) == Some(Box::new(x2)));
    }
    assert(spec_strip(sa) == sa);
    assert(spec_strip(sb) == sb);
    if fuel >= 1 {
        let f = (fuel - 1) as nat;
        assert(rungs.subrange(0, 1) =~= seq![sa]);
        assert(rungs[1] == sb);
        assert(seq![sa].subrange(0, 0) =~= Seq::<TermV>::empty());
        assert(seq![sa][0] == sa);
        assert(spec_normalize(TermV::Ladder(rungs), fuel) == spec_norm_loop(seq![sa], sb, Seq::empty(), f));
        if f >= 1 {
            let g = (f - 1) as nat;
            if a != b {
                law_normalize_plain_pair(a, b, g);
            }
            let item: Option<TermV> = if a == b { Some(a) } else { spec_normalize(ladder2(a, b), g) };
            let repr: Option<Option<Box<TermV>>> = match (ra, rb) {
                (Some(x1), Some(x2)) => {
                    assert(opt_or_unit(Some(Box::new(x1))) == x1);
                    assert(opt_or_unit(Some(Box::new(x2))) == x2);
                    assert(x1 != spec_unit());
                    if x1 != x2 {
                        law_normalize_plain_pair(x1, x2, g);
                    }
                    if x1 == x2 {
                        Some(Some(Box::new(x1)))
                    } else {
                        match spec_normalize(ladder2(x1, x2), g) {
                            Some(n) => Some(Some(Box::new(n))),
                            None => None,
                        }
                    }
                },
                _ => Some(None),
            };
            assert(spec_step_seq_seq(sa, sb, g) == match (repr, item) {
                (Some(r), Some(i)) => Some((None::<TermV>, TermV::Sequence { repr: r, item: Box::new(i) })),
                _ => None,
            });
            assert(spec_norm_step(sa, sb, f) == spec_step_seq_seq(sa, sb, g));
            if let (Some(r), Some(i)) = (repr, item) {
                assert(spec_norm_loop(Seq::<TermV>::empty(), TermV::Sequence { repr: r, item: Box::new(i) }, Seq::empty(), f)
                    == Some(TermV::Sequence { repr: r, item: Box::new(i) }));
            }
        }
    }
}

} // verus!
