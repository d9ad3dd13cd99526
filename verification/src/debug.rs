//! The `Debug` notation of terms and kinds, as `derive(Debug)` writes it for them.

use vstd::prelude::*;
use crate::term::{
    TypeTerm, TermV, KindV, PairV, FieldV, EntryV, TypeKind, ConstraintPair, StructMember, EnumVariant,
    ContextEntry, terms_view, members_view, variants_view, entries_view, pairs_view, opt_view,
    lemma_terms_view, lemma_members_view, lemma_variants_view, lemma_entries_view, lemma_pairs_view,
};
use crate::numfmt::{spec_int_str, spec_nat_str, push_i64, push_u64};
use crate::unparser::push_str;

verus! {

/// What `format!("{:?}", c)` writes for a character: the character between single
/// quotes, escaped as `char::escape_debug` escapes it.
pub uninterp spec fn spec_char_debug(c: char) -> Seq<char>;

/// What `format!("{:?}", s)` writes for a string: the string between double quotes,
/// escaped as `str::escape_debug` escapes it.
pub uninterp spec fn spec_str_debug(s: Seq<char>) -> Seq<char>;

/// `<char as Debug>::fmt`, through `format!("{:?}", c)`.
#[verifier::external_body]
fn char_debug(c: char) -> (r: String)
    ensures
        r@ == spec_char_debug(c),
{
    format!("{:?}", c)
}

/// `<str as Debug>::fmt`, through `format!("{:?}", s)`.
#[verifier::external_body]
fn str_debug(s: &str) -> (r: String)
    ensures
        r@ == spec_str_debug(s@),
{
    format!("{:?}", s)
}

/// The notation of a kind.
pub open spec fn spec_kind_dbg(k: KindV) -> Seq<char>
    decreases k,
{
    match k {
        KindV::Type => lit_Type(),
        KindV::Arrow(a, b) => lit_Arrow() + spec_kind_dbg(*a) + lit_comma() + spec_kind_dbg(*b) + lit_close(),
        KindV::Value(t) => lit_Value() + spec_term_dbg(*t) + lit_close(),
    }
}

/// The notation of a term.
pub open spec fn spec_term_dbg(t: TermV) -> Seq<char>
    decreases t,
{
    match t {
        TermV::Id(x) => lit_Id() + spec_nat_str(x as nat) + lit_close(),
        TermV::Var(x) => lit_Var() + spec_nat_str(x as nat) + lit_close(),
        TermV::Num(n) => lit_Num() + spec_int_str(n as int) + lit_close(),
        TermV::Char(c) => lit_Char() + spec_char_debug(c) + lit_close(),
        TermV::Univ { gamma, bounds, tau } => lit_Univ() + spec_entries_dbg(gamma) + lit_bounds() + spec_pairs_dbg(bounds)
            + lit_tau() + spec_term_dbg(*tau) + lit_end(),
        TermV::Spec(s) => lit_Spec() + spec_terms_dbg(s) + lit_listclose(),
        TermV::Func(s) => lit_Func() + spec_terms_dbg(s) + lit_listclose(),
        TermV::Morph(a, b) => lit_Morph() + spec_term_dbg(*a) + lit_comma() + spec_term_dbg(*b) + lit_close(),
        TermV::Ladder(s) => lit_Ladder() + spec_terms_dbg(s) + lit_listclose(),
        TermV::Struct { repr, members } => lit_Struct() + spec_opt_dbg(repr) + lit_members() + spec_fields_dbg(lit_StructMember(), members) + lit_listend(),
        TermV::Enum { repr, variants } => lit_Enum() + spec_opt_dbg(repr) + lit_variants() + spec_fields_dbg(lit_EnumVariant(), variants) + lit_listend(),
        TermV::Sequence { repr, item } => lit_Seq() + spec_opt_dbg(repr) + lit_item() + spec_term_dbg(*item) + lit_end(),
    }
}

/// The notation of an optional boxed term.
pub open spec fn spec_opt_dbg(o: Option<Box<TermV>>) -> Seq<char>
    decreases o,
{
    match o {
        Some(t) => lit_Some() + spec_term_dbg(*t) + lit_close(),
        None => lit_None(),
    }
}

/// The notations of terms, separated by `, `.
pub open spec fn spec_terms_dbg(s: Seq<TermV>) -> Seq<char>
    decreases s,
{
    if s.len() == 0 {
        Seq::empty()
    } else {
        (if s.len() == 1 { Seq::empty() } else { spec_terms_dbg(s.drop_last()) + lit_comma() }) + spec_term_dbg(s.last())
    }
}

/// The notations of context entries, separated by `, `.
pub open spec fn spec_entries_dbg(s: Seq<EntryV>) -> Seq<char>
    decreases s,
{
    if s.len() == 0 {
        Seq::empty()
    } else {
        (if s.len() == 1 { Seq::empty() } else { spec_entries_dbg(s.drop_last()) + lit_comma() })
            + lit_ContextEntry() + spec_str_debug(s.last().symbol) + lit_kind() + spec_kind_dbg(s.last().kind) + lit_end()
    }
}

/// The notation of a pair's constructor.
pub open spec fn spec_pair_name(p: PairV) -> Seq<char> {
    match p {
        PairV::ValueOf(_, _) => lit_ValueOf(),
        PairV::Subtype(_, _) => lit_Subtype(),
        PairV::Trait(_, _) => lit_Trait(),
        PairV::Parallel(_, _) => lit_Parallel(),
    }
}

/// The two terms of a pair.
pub open spec fn spec_pair_terms(p: PairV) -> (TermV, TermV) {
    match p {
        PairV::ValueOf(a, b) => (a, b),
        PairV::Subtype(a, b) => (a, b),
        PairV::Trait(a, b) => (a, b),
        PairV::Parallel(a, b) => (a, b),
    }
}

/// The notations of constraint pairs, separated by `, `.
pub open spec fn spec_pairs_dbg(s: Seq<PairV>) -> Seq<char>
    decreases s,
{
    if s.len() == 0 {
        Seq::empty()
    } else {
        (if s.len() == 1 { Seq::empty() } else { spec_pairs_dbg(s.drop_last()) + lit_comma() })
            + spec_pair_name(s.last()) + spec_term_dbg(spec_pair_terms(s.last()).0) + lit_comma()
            + spec_term_dbg(spec_pair_terms(s.last()).1) + lit_close()
    }
}

/// The notations of struct members or enum variants (the constructor named `name`),
/// separated by `, `.
pub open spec fn spec_fields_dbg(name: Seq<char>, s: Seq<FieldV>) -> Seq<char>
    decreases s,
{
    if s.len() == 0 {
        Seq::empty()
    } else {
        (if s.len() == 1 { Seq::empty() } else { spec_fields_dbg(name, s.drop_last()) + lit_comma() })
            + name + lit_symbol() + spec_str_debug(s.last().symbol) + lit_ty() + spec_term_dbg(s.last().ty) + lit_end()
    }
}

/// Appends the notation of a kind.
pub fn push_kind_dbg(out: &mut Vec<char>, k: &TypeKind)
    ensures
        final(out)@ == old(out)@ + spec_kind_dbg(k@),
    decreases k,
{
    let ghost o0 = out@;
    match k {
        TypeKind::Type => {
            push_lit_Type(out);
        },
        TypeKind::Arrow(a, b) => {
            push_lit_Arrow(out);
            push_kind_dbg(out, a);
            push_lit_comma(out);
            push_kind_dbg(out, b);
            push_lit_close(out);
        },
        TypeKind::Value(t) => {
            push_lit_Value(out);
            push_term_dbg(out, t);
            push_lit_close(out);
        },
    }
    assert(out@ =~= o0 + spec_kind_dbg(k@));
}

/// Appends the notation of a term.
pub fn push_term_dbg(out: &mut Vec<char>, t: &TypeTerm)
    ensures
        final(out)@ == old(out)@ + spec_term_dbg(t@),
    decreases t,
{
    let ghost o0 = out@;
    match t {
        TypeTerm::Id(x) => {
            push_lit_Id(out);
            push_u64(out, *x);
            push_lit_close(out);
        },
        TypeTerm::Var(x) => {
            push_lit_Var(out);
            push_u64(out, *x);
            push_lit_close(out);
        },
        TypeTerm::Num(n) => {
            push_lit_Num(out);
            push_i64(out, *n);
            push_lit_close(out);
        },
        TypeTerm::Char(c) => {
            push_lit_Char(out);
            let d = char_debug(*c);
            push_str(out, d.as_str());
            push_lit_close(out);
        },
        TypeTerm::Univ { gamma, bounds, tau } => {
            push_lit_Univ(out);
            push_entries_dbg(out, gamma);
            push_lit_bounds(out);
            push_pairs_dbg(out, bounds);
            push_lit_tau(out);
            push_term_dbg(out, tau);
            push_lit_end(out);
        },
        TypeTerm::Spec(v) => {
            push_lit_Spec(out);
            push_terms_dbg(out, v);
            push_lit_listclose(out);
        },
        TypeTerm::Func(v) => {
            push_lit_Func(out);
            push_terms_dbg(out, v);
            push_lit_listclose(out);
        },
        TypeTerm::Morph(a, b) => {
            push_lit_Morph(out);
            push_term_dbg(out, a);
            push_lit_comma(out);
            push_term_dbg(out, b);
            push_lit_close(out);
        },
        TypeTerm::Ladder(v) => {
            push_lit_Ladder(out);
            push_terms_dbg(out, v);
            push_lit_listclose(out);
        },
        TypeTerm::Struct { struct_repr, members } => {
            push_lit_Struct(out);
            push_opt_dbg(out, struct_repr);
            push_lit_members(out);
            push_members_dbg(out, members);
            push_lit_listend(out);
        },
        TypeTerm::Enum { enum_repr, variants } => {
            push_lit_Enum(out);
            push_opt_dbg(out, enum_repr);
            push_lit_variants(out);
            push_variants_dbg(out, variants);
            push_lit_listend(out);
        },
        TypeTerm::Sequence { seq_repr, item } => {
            push_lit_Seq(out);
            push_opt_dbg(out, seq_repr);
            push_lit_item(out);
            push_term_dbg(out, item);
            push_lit_end(out);
        },
    }
    assert(out@ =~= o0 + spec_term_dbg(t@));
}

/// Appends the notation of an optional boxed term.
fn push_opt_dbg(out: &mut Vec<char>, o: &Option<Box<TypeTerm>>)
    ensures
        final(out)@ == old(out)@ + spec_opt_dbg(opt_view(*o)),
    decreases o,
{
    let ghost o0 = out@;
    match o {
        Some(t) => {
            push_lit_Some(out);
            push_term_dbg(out, t);
            push_lit_close(out);
        },
        None => {
            push_lit_None(out);
        },
    }
    assert(out@ =~= o0 + spec_opt_dbg(opt_view(*o)));
}

/// Appends the notations of terms, separated by `, `.
fn push_terms_dbg(out: &mut Vec<char>, v: &Vec<TypeTerm>)
    ensures
        final(out)@ == old(out)@ + spec_terms_dbg(terms_view(v@)),
    decreases v,
{
    let ghost sv = terms_view(v@);
    let ghost o0 = out@;
    proof { lemma_terms_view(v@); }
    assert(sv.subrange(0, 0) =~= Seq::<TermV>::empty());
    let mut i: usize = 0;
    while i < v.len()
        invariant
            i <= v.len(),
            sv == terms_view(v@),
            sv.len() == v.len(),
            forall|j: int| 0 <= j < v.len() ==> #[trigger] sv[j] == v@[j]@,
            out@ == o0 + spec_terms_dbg(sv.subrange(0, i as int)),
        decreases v.len() - i,
    {
        let ghost before = out@;
        if i > 0 {
            push_lit_comma(out);
        }
        push_term_dbg(out, &v[i]);
        proof {
            let p = sv.subrange(0, i + 1);
            assert(p.drop_last() =~= sv.subrange(0, i as int));
            assert(p.last() == v@[i as int]@);
            assert(out@ =~= o0 + spec_terms_dbg(p));
        }
        i += 1;
    }
    assert(sv.subrange(0, v.len() as int) =~= sv);
}

/// Appends the notations of context entries, separated by `, `.
fn push_entries_dbg(out: &mut Vec<char>, v: &Vec<ContextEntry>)
    ensures
        final(out)@ == old(out)@ + spec_entries_dbg(entries_view(v@)),
    decreases v,
{
    let ghost sv = entries_view(v@);
    let ghost o0 = out@;
    proof { lemma_entries_view(v@); }
    assert(sv.subrange(0, 0) =~= Seq::<EntryV>::empty());
    let mut i: usize = 0;
    while i < v.len()
        invariant
            i <= v.len(),
            sv == entries_view(v@),
            sv.len() == v.len(),
            forall|j: int| 0 <= j < v.len() ==> #[trigger] sv[j] == v@[j]@,
            out@ == o0 + spec_entries_dbg(sv.subrange(0, i as int)),
        decreases v.len() - i,
    {
        if i > 0 {
            push_lit_comma(out);
        }
            push_lit_ContextEntry(out);
        let d = str_debug(v[i].symbol.as_str());
        push_str(out, d.as_str());
            push_lit_kind(out);
        push_kind_dbg(out, &v[i].kind);
            push_lit_end(out);
        proof {
            let p = sv.subrange(0, i + 1);
            assert(p.drop_last() =~= sv.subrange(0, i as int));
            assert(p.last() == v@[i as int]@);
            assert(out@ =~= o0 + spec_entries_dbg(p));
        }
        i += 1;
    }
    assert(sv.subrange(0, v.len() as int) =~= sv);
}

/// Appends the notation of a constraint pair.
fn push_pair_dbg(out: &mut Vec<char>, p: &ConstraintPair)
    ensures
        final(out)@ == old(out)@ + spec_pair_name(p@) + spec_term_dbg(spec_pair_terms(p@).0) + lit_comma()
            + spec_term_dbg(spec_pair_terms(p@).1) + lit_close(),
    decreases p,
{
    let ghost o0 = out@;
    let (a, b) = match p {
        ConstraintPair::ValueOf(a, b) => {
            push_lit_ValueOf(out);
            (a, b)
        },
        ConstraintPair::Subtype(a, b) => {
            push_lit_Subtype(out);
            (a, b)
        },
        ConstraintPair::Trait(a, b) => {
            push_lit_Trait(out);
            (a, b)
        },
        ConstraintPair::Parallel(a, b) => {
            push_lit_Parallel(out);
            (a, b)
        },
    };
    push_term_dbg(out, a);
            push_lit_comma(out);
    push_term_dbg(out, b);
            push_lit_close(out);
    assert(out@ =~= o0 + spec_pair_name(p@) + spec_term_dbg(spec_pair_terms(p@).0) + lit_comma()
        + spec_term_dbg(spec_pair_terms(p@).1) + lit_close());
}

/// Appends the notations of constraint pairs, separated by `, `.
fn push_pairs_dbg(out: &mut Vec<char>, v: &Vec<ConstraintPair>)
    ensures
        final(out)@ == old(out)@ + spec_pairs_dbg(pairs_view(v@)),
    decreases v,
{
    let ghost sv = pairs_view(v@);
    let ghost o0 = out@;
    proof { lemma_pairs_view(v@); }
    assert(sv.subrange(0, 0) =~= Seq::<PairV>::empty());
    let mut i: usize = 0;
    while i < v.len()
        invariant
            i <= v.len(),
            sv == pairs_view(v@),
            sv.len() == v.len(),
            forall|j: int| 0 <= j < v.len() ==> #[trigger] sv[j] == v@[j]@,
            out@ == o0 + spec_pairs_dbg(sv.subrange(0, i as int)),
        decreases v.len() - i,
    {
        if i > 0 {
            push_lit_comma(out);
        }
        push_pair_dbg(out, &v[i]);
        proof {
            let p = sv.subrange(0, i + 1);
            assert(p.drop_last() =~= sv.subrange(0, i as int));
            assert(p.last() == v@[i as int]@);
            assert(out@ =~= o0 + spec_pairs_dbg(p));
        }
        i += 1;
    }
    assert(sv.subrange(0, v.len() as int) =~= sv);
}

/// Appends the notations of StructMembers, separated by `, `.
fn push_members_dbg(out: &mut Vec<char>, v: &Vec<StructMember>)
    ensures
        final(out)@ == old(out)@ + spec_fields_dbg(lit_StructMember(), members_view(v@)),
    decreases v,
{
    let ghost sv = members_view(v@);
    let ghost o0 = out@;
    proof { lemma_members_view(v@); }
    assert(sv.subrange(0, 0) =~= Seq::<FieldV>::empty());
    let mut i: usize = 0;
    while i < v.len()
        invariant
            i <= v.len(),
            sv == members_view(v@),
            sv.len() == v.len(),
            forall|j: int| 0 <= j < v.len() ==> #[trigger] sv[j] == (FieldV { symbol: v@[j].symbol@, ty: v@[j].ty@ }),
            out@ == o0 + spec_fields_dbg(lit_StructMember(), sv.subrange(0, i as int)),
        decreases v.len() - i,
    {
        if i > 0 {
            push_lit_comma(out);
        }
            push_lit_StructMember(out);
            push_lit_symbol(out);
        let d = str_debug(v[i].symbol.as_str());
        push_str(out, d.as_str());
            push_lit_ty(out);
        push_term_dbg(out, &v[i].ty);
            push_lit_end(out);
        proof {
            let p = sv.subrange(0, i + 1);
            assert(p.drop_last() =~= sv.subrange(0, i as int));
            assert(out@ =~= o0 + spec_fields_dbg(lit_StructMember(), p));
        }
        i += 1;
    }
    assert(sv.subrange(0, v.len() as int) =~= sv);
}

/// Appends the notations of EnumVariants, separated by `, `.
fn push_variants_dbg(out: &mut Vec<char>, v: &Vec<EnumVariant>)
    ensures
        final(out)@ == old(out)@ + spec_fields_dbg(lit_EnumVariant(), variants_view(v@)),
    decreases v,
{
    let ghost sv = variants_view(v@);
    let ghost o0 = out@;
    proof { lemma_variants_view(v@); }
    assert(sv.subrange(0, 0) =~= Seq::<FieldV>::empty());
    let mut i: usize = 0;
    while i < v.len()
        invariant
            i <= v.len(),
            sv == variants_view(v@),
            sv.len() == v.len(),
            forall|j: int| 0 <= j < v.len() ==> #[trigger] sv[j] == (FieldV { symbol: v@[j].symbol@, ty: v@[j].ty@ }),
            out@ == o0 + spec_fields_dbg(lit_EnumVariant(), sv.subrange(0, i as int)),
        decreases v.len() - i,
    {
        if i > 0 {
            push_lit_comma(out);
        }
            push_lit_EnumVariant(out);
            push_lit_symbol(out);
        let d = str_debug(v[i].symbol.as_str());
        push_str(out, d.as_str());
            push_lit_ty(out);
        push_term_dbg(out, &v[i].ty);
            push_lit_end(out);
        proof {
            let p = sv.subrange(0, i + 1);
            assert(p.drop_last() =~= sv.subrange(0, i as int));
            assert(out@ =~= o0 + spec_fields_dbg(lit_EnumVariant(), p));
        }
        i += 1;
    }
    assert(sv.subrange(0, v.len() as int) =~= sv);
}

//------------------------------------------------------------------
// The fixed pieces of the notation
//------------------------------------------------------------------

/// The text `Arrow(`.
#[verifier::opaque]
pub open spec fn lit_Arrow() -> Seq<char> {
    seq!['A', 'r', 'r', 'o', 'w', '(']
}

fn push_lit_Arrow(out: &mut Vec<char>)
    ensures
        final(out)@ == old(out)@ + lit_Arrow(),
{
    let ghost o0 = out@;
    out.push('A');
    out.push('r');
    out.push('r');
    out.push('o');
    out.push('w');
    out.push('(');
    proof { reveal(lit_Arrow); }
    assert(out@ =~= o0 + lit_Arrow());
}

/// The text `Char(`.
#[verifier::opaque]
pub open spec fn lit_Char() -> Seq<char> {
    seq!['C', 'h', 'a', 'r', '(']
}

fn push_lit_Char(out: &mut Vec<char>)
    ensures
        final(out)@ == old(out)@ + lit_Char(),
{
    let ghost o0 = out@;
    out.push('C');
    out.push('h');
    out.push('a');
    out.push('r');
    out.push('(');
    proof { reveal(lit_Char); }
    assert(out@ =~= o0 + lit_Char());
}

/// The text `ContextEntry { symbol: `.
#[verifier::opaque]
pub open spec fn lit_ContextEntry() -> Seq<char> {
    seq!['C', 'o', 'n', 't', 'e', 'x', 't', 'E', 'n', 't', 'r', 'y', ' ', '{', ' ', 's', 'y', 'm', 'b', 'o', 'l', ':', ' ']
}

fn push_lit_ContextEntry(out: &mut Vec<char>)
    ensures
        final(out)@ == old(out)@ + lit_ContextEntry(),
{
    let ghost o0 = out@;
    out.push('C');
    out.push('o');
    out.push('n');
    out.push('t');
    out.push('e');
    out.push('x');
    out.push('t');
    out.push('E');
    out.push('n');
    out.push('t');
    out.push('r');
    out.push('y');
    out.push(' ');
    out.push('{');
    out.push(' ');
    out.push('s');
    out.push('y');
    out.push('m');
    out.push('b');
    out.push('o');
    out.push('l');
    out.push(':');
    out.push(' ');
    proof { reveal(lit_ContextEntry); }
    assert(out@ =~= o0 + lit_ContextEntry());
}

/// The text `Enum { enum_repr: `.
#[verifier::opaque]
pub open spec fn lit_Enum() -> Seq<char> {
    seq!['E', 'n', 'u', 'm', ' ', '{', ' ', 'e', 'n', 'u', 'm', '_', 'r', 'e', 'p', 'r', ':', ' ']
}

fn push_lit_Enum(out: &mut Vec<char>)
    ensures
        final(out)@ == old(out)@ + lit_Enum(),
{
    let ghost o0 = out@;
    out.push('E');
    out.push('n');
    out.push('u');
    out.push('m');
    out.push(' ');
    out.push('{');
    out.push(' ');
    out.push('e');
    out.push('n');
    out.push('u');
    out.push('m');
    out.push('_');
    out.push('r');
    out.push('e');
    out.push('p');
    out.push('r');
    out.push(':');
    out.push(' ');
    proof { reveal(lit_Enum); }
    assert(out@ =~= o0 + lit_Enum());
}

/// The text `EnumVariant`.
#[verifier::opaque]
pub open spec fn lit_EnumVariant() -> Seq<char> {
    seq!['E', 'n', 'u', 'm', 'V', 'a', 'r', 'i', 'a', 'n', 't']
}

fn push_lit_EnumVariant(out: &mut Vec<char>)
    ensures
        final(out)@ == old(out)@ + lit_EnumVariant(),
{
    let ghost o0 = out@;
    out.push('E');
    out.push('n');
    out.push('u');
    out.push('m');
    out.push('V');
    out.push('a');
    out.push('r');
    out.push('i');
    out.push('a');
    out.push('n');
    out.push('t');
    proof { reveal(lit_EnumVariant); }
    assert(out@ =~= o0 + lit_EnumVariant());
}

/// The text `Func([`.
#[verifier::opaque]
pub open spec fn lit_Func() -> Seq<char> {
    seq!['F', 'u', 'n', 'c', '(', '[']
}

fn push_lit_Func(out: &mut Vec<char>)
    ensures
        final(out)@ == old(out)@ + lit_Func(),
{
    let ghost o0 = out@;
    out.push('F');
    out.push('u');
    out.push('n');
    out.push('c');
    out.push('(');
    out.push('[');
    proof { reveal(lit_Func); }
    assert(out@ =~= o0 + lit_Func());
}

/// The text `Id(`.
#[verifier::opaque]
pub open spec fn lit_Id() -> Seq<char> {
    seq!['I', 'd', '(']
}

fn push_lit_Id(out: &mut Vec<char>)
    ensures
        final(out)@ == old(out)@ + lit_Id(),
{
    let ghost o0 = out@;
    out.push('I');
    out.push('d');
    out.push('(');
    proof { reveal(lit_Id); }
    assert(out@ =~= o0 + lit_Id());
}

/// The text `Ladder([`.
#[verifier::opaque]
pub open spec fn lit_Ladder() -> Seq<char> {
    seq!['L', 'a', 'd', 'd', 'e', 'r', '(', '[']
}

fn push_lit_Ladder(out: &mut Vec<char>)
    ensures
        final(out)@ == old(out)@ + lit_Ladder(),
{
    let ghost o0 = out@;
    out.push('L');
    out.push('a');
    out.push('d');
    out.push('d');
    out.push('e');
    out.push('r');
    out.push('(');
    out.push('[');
    proof { reveal(lit_Ladder); }
    assert(out@ =~= o0 + lit_Ladder());
}

/// The text `Morph(`.
#[verifier::opaque]
pub open spec fn lit_Morph() -> Seq<char> {
    seq!['M', 'o', 'r', 'p', 'h', '(']
}

fn push_lit_Morph(out: &mut Vec<char>)
    ensures
        final(out)@ == old(out)@ + lit_Morph(),
{
    let ghost o0 = out@;
    out.push('M');
    out.push('o');
    out.push('r');
    out.push('p');
    out.push('h');
    out.push('(');
    proof { reveal(lit_Morph); }
    assert(out@ =~= o0 + lit_Morph());
}

/// The text `None`.
#[verifier::opaque]
pub open spec fn lit_None() -> Seq<char> {
    seq!['N', 'o', 'n', 'e']
}

fn push_lit_None(out: &mut Vec<char>)
    ensures
        final(out)@ == old(out)@ + lit_None(),
{
    let ghost o0 = out@;
    out.push('N');
    out.push('o');
    out.push('n');
    out.push('e');
    proof { reveal(lit_None); }
    assert(out@ =~= o0 + lit_None());
}

/// The text `Num(`.
#[verifier::opaque]
pub open spec fn lit_Num() -> Seq<char> {
    seq!['N', 'u', 'm', '(']
}

fn push_lit_Num(out: &mut Vec<char>)
    ensures
        final(out)@ == old(out)@ + lit_Num(),
{
    let ghost o0 = out@;
    out.push('N');
    out.push('u');
    out.push('m');
    out.push('(');
    proof { reveal(lit_Num); }
    assert(out@ =~= o0 + lit_Num());
}

/// The text `Parallel(`.
#[verifier::opaque]
pub open spec fn lit_Parallel() -> Seq<char> {
    seq!['P', 'a', 'r', 'a', 'l', 'l', 'e', 'l', '(']
}

fn push_lit_Parallel(out: &mut Vec<char>)
    ensures
        final(out)@ == old(out)@ + lit_Parallel(),
{
    let ghost o0 = out@;
    out.push('P');
    out.push('a');
    out.push('r');
    out.push('a');
    out.push('l');
    out.push('l');
    out.push('e');
    out.push('l');
    out.push('(');
    proof { reveal(lit_Parallel); }
    assert(out@ =~= o0 + lit_Parallel());
}

/// The text `Seq { seq_repr: `.
#[verifier::opaque]
pub open spec fn lit_Seq() -> Seq<char> {
    seq!['S', 'e', 'q', ' ', '{', ' ', 's', 'e', 'q', '_', 'r', 'e', 'p', 'r', ':', ' ']
}

fn push_lit_Seq(out: &mut Vec<char>)
    ensures
        final(out)@ == old(out)@ + lit_Seq(),
{
    let ghost o0 = out@;
    out.push('S');
    out.push('e');
    out.push('q');
    out.push(' ');
    out.push('{');
    out.push(' ');
    out.push('s');
    out.push('e');
    out.push('q');
    out.push('_');
    out.push('r');
    out.push('e');
    out.push('p');
    out.push('r');
    out.push(':');
    out.push(' ');
    proof { reveal(lit_Seq); }
    assert(out@ =~= o0 + lit_Seq());
}

/// The text `Some(`.
#[verifier::opaque]
pub open spec fn lit_Some() -> Seq<char> {
    seq!['S', 'o', 'm', 'e', '(']
}

fn push_lit_Some(out: &mut Vec<char>)
    ensures
        final(out)@ == old(out)@ + lit_Some(),
{
    let ghost o0 = out@;
    out.push('S');
    out.push('o');
    out.push('m');
    out.push('e');
    out.push('(');
    proof { reveal(lit_Some); }
    assert(out@ =~= o0 + lit_Some());
}

/// The text `Spec([`.
#[verifier::opaque]
pub open spec fn lit_Spec() -> Seq<char> {
    seq!['S', 'p', 'e', 'c', '(', '[']
}

fn push_lit_Spec(out: &mut Vec<char>)
    ensures
        final(out)@ == old(out)@ + lit_Spec(),
{
    let ghost o0 = out@;
    out.push('S');
    out.push('p');
    out.push('e');
    out.push('c');
    out.push('(');
    out.push('[');
    proof { reveal(lit_Spec); }
    assert(out@ =~= o0 + lit_Spec());
}

/// The text `Struct { struct_repr: `.
#[verifier::opaque]
pub open spec fn lit_Struct() -> Seq<char> {
    seq!['S', 't', 'r', 'u', 'c', 't', ' ', '{', ' ', 's', 't', 'r', 'u', 'c', 't', '_', 'r', 'e', 'p', 'r', ':', ' ']
}

fn push_lit_Struct(out: &mut Vec<char>)
    ensures
        final(out)@ == old(out)@ + lit_Struct(),
{
    let ghost o0 = out@;
    out.push('S');
    out.push('t');
    out.push('r');
    out.push('u');
    out.push('c');
    out.push('t');
    out.push(' ');
    out.push('{');
    out.push(' ');
    out.push('s');
    out.push('t');
    out.push('r');
    out.push('u');
    out.push('c');
    out.push('t');
    out.push('_');
    out.push('r');
    out.push('e');
    out.push('p');
    out.push('r');
    out.push(':');
    out.push(' ');
    proof { reveal(lit_Struct); }
    assert(out@ =~= o0 + lit_Struct());
}

/// The text `StructMember`.
#[verifier::opaque]
pub open spec fn lit_StructMember() -> Seq<char> {
    seq!['S', 't', 'r', 'u', 'c', 't', 'M', 'e', 'm', 'b', 'e', 'r']
}

fn push_lit_StructMember(out: &mut Vec<char>)
    ensures
        final(out)@ == old(out)@ + lit_StructMember(),
{
    let ghost o0 = out@;
    out.push('S');
    out.push('t');
    out.push('r');
    out.push('u');
    out.push('c');
    out.push('t');
    out.push('M');
    out.push('e');
    out.push('m');
    out.push('b');
    out.push('e');
    out.push('r');
    proof { reveal(lit_StructMember); }
    assert(out@ =~= o0 + lit_StructMember());
}

/// The text `Subtype(`.
#[verifier::opaque]
pub open spec fn lit_Subtype() -> Seq<char> {
    seq!['S', 'u', 'b', 't', 'y', 'p', 'e', '(']
}

fn push_lit_Subtype(out: &mut Vec<char>)
    ensures
        final(out)@ == old(out)@ + lit_Subtype(),
{
    let ghost o0 = out@;
    out.push('S');
    out.push('u');
    out.push('b');
    out.push('t');
    out.push('y');
    out.push('p');
    out.push('e');
    out.push('(');
    proof { reveal(lit_Subtype); }
    assert(out@ =~= o0 + lit_Subtype());
}

/// The text `Trait(`.
#[verifier::opaque]
pub open spec fn lit_Trait() -> Seq<char> {
    seq!['T', 'r', 'a', 'i', 't', '(']
}

fn push_lit_Trait(out: &mut Vec<char>)
    ensures
        final(out)@ == old(out)@ + lit_Trait(),
{
    let ghost o0 = out@;
    out.push('T');
    out.push('r');
    out.push('a');
    out.push('i');
    out.push('t');
    out.push('(');
    proof { reveal(lit_Trait); }
    assert(out@ =~= o0 + lit_Trait());
}

/// The text `Type`.
#[verifier::opaque]
pub open spec fn lit_Type() -> Seq<char> {
    seq!['T', 'y', 'p', 'e']
}

fn push_lit_Type(out: &mut Vec<char>)
    ensures
        final(out)@ == old(out)@ + lit_Type(),
{
    let ghost o0 = out@;
    out.push('T');
    out.push('y');
    out.push('p');
    out.push('e');
    proof { reveal(lit_Type); }
    assert(out@ =~= o0 + lit_Type());
}

/// The text `Univ { Γ: [`.
#[verifier::opaque]
pub open spec fn lit_Univ() -> Seq<char> {
    seq!['U', 'n', 'i', 'v', ' ', '{', ' ', 'Γ', ':', ' ', '[']
}

fn push_lit_Univ(out: &mut Vec<char>)
    ensures
        final(out)@ == old(out)@ + lit_Univ(),
{
    let ghost o0 = out@;
    out.push('U');
    out.push('n');
    out.push('i');
    out.push('v');
    out.push(' ');
    out.push('{');
    out.push(' ');
    out.push('Γ');
    out.push(':');
    out.push(' ');
    out.push('[');
    proof { reveal(lit_Univ); }
    assert(out@ =~= o0 + lit_Univ());
}

/// The text `Value(`.
#[verifier::opaque]
pub open spec fn lit_Value() -> Seq<char> {
    seq!['V', 'a', 'l', 'u', 'e', '(']
}

fn push_lit_Value(out: &mut Vec<char>)
    ensures
        final(out)@ == old(out)@ + lit_Value(),
{
    let ghost o0 = out@;
    out.push('V');
    out.push('a');
    out.push('l');
    out.push('u');
    out.push('e');
    out.push('(');
    proof { reveal(lit_Value); }
    assert(out@ =~= o0 + lit_Value());
}

/// The text `ValueOf(`.
#[verifier::opaque]
pub open spec fn lit_ValueOf() -> Seq<char> {
    seq!['V', 'a', 'l', 'u', 'e', 'O', 'f', '(']
}

fn push_lit_ValueOf(out: &mut Vec<char>)
    ensures
        final(out)@ == old(out)@ + lit_ValueOf(),
{
    let ghost o0 = out@;
    out.push('V');
    out.push('a');
    out.push('l');
    out.push('u');
    out.push('e');
    out.push('O');
    out.push('f');
    out.push('(');
    proof { reveal(lit_ValueOf); }
    assert(out@ =~= o0 + lit_ValueOf());
}

/// The text `Var(`.
#[verifier::opaque]
pub open spec fn lit_Var() -> Seq<char> {
    seq!['V', 'a', 'r', '(']
}

fn push_lit_Var(out: &mut Vec<char>)
    ensures
        final(out)@ == old(out)@ + lit_Var(),
{
    let ghost o0 = out@;
    out.push('V');
    out.push('a');
    out.push('r');
    out.push('(');
    proof { reveal(lit_Var); }
    assert(out@ =~= o0 + lit_Var());
}

/// The text `], bounds: [`.
#[verifier::opaque]
pub open spec fn lit_bounds() -> Seq<char> {
    seq![']', ',', ' ', 'b', 'o', 'u', 'n', 'd', 's', ':', ' ', '[']
}

fn push_lit_bounds(out: &mut Vec<char>)
    ensures
        final(out)@ == old(out)@ + lit_bounds(),
{
    let ghost o0 = out@;
    out.push(']');
    out.push(',');
    out.push(' ');
    out.push('b');
    out.push('o');
    out.push('u');
    out.push('n');
    out.push('d');
    out.push('s');
    out.push(':');
    out.push(' ');
    out.push('[');
    proof { reveal(lit_bounds); }
    assert(out@ =~= o0 + lit_bounds());
}

/// The text `)`.
#[verifier::opaque]
pub open spec fn lit_close() -> Seq<char> {
    seq![')']
}

fn push_lit_close(out: &mut Vec<char>)
    ensures
        final(out)@ == old(out)@ + lit_close(),
{
    let ghost o0 = out@;
    out.push(')');
    proof { reveal(lit_close); }
    assert(out@ =~= o0 + lit_close());
}

/// The text `, `.
#[verifier::opaque]
pub open spec fn lit_comma() -> Seq<char> {
    seq![',', ' ']
}

fn push_lit_comma(out: &mut Vec<char>)
    ensures
        final(out)@ == old(out)@ + lit_comma(),
{
    let ghost o0 = out@;
    out.push(',');
    out.push(' ');
    proof { reveal(lit_comma); }
    assert(out@ =~= o0 + lit_comma());
}

/// The text ` }`.
#[verifier::opaque]
pub open spec fn lit_end() -> Seq<char> {
    seq![' ', '}']
}

fn push_lit_end(out: &mut Vec<char>)
    ensures
        final(out)@ == old(out)@ + lit_end(),
{
    let ghost o0 = out@;
    out.push(' ');
    out.push('}');
    proof { reveal(lit_end); }
    assert(out@ =~= o0 + lit_end());
}

/// The text `, item: `.
#[verifier::opaque]
pub open spec fn lit_item() -> Seq<char> {
    seq![',', ' ', 'i', 't', 'e', 'm', ':', ' ']
}

fn push_lit_item(out: &mut Vec<char>)
    ensures
        final(out)@ == old(out)@ + lit_item(),
{
    let ghost o0 = out@;
    out.push(',');
    out.push(' ');
    out.push('i');
    out.push('t');
    out.push('e');
    out.push('m');
    out.push(':');
    out.push(' ');
    proof { reveal(lit_item); }
    assert(out@ =~= o0 + lit_item());
}

/// The text `, kind: `.
#[verifier::opaque]
pub open spec fn lit_kind() -> Seq<char> {
    seq![',', ' ', 'k', 'i', 'n', 'd', ':', ' ']
}

fn push_lit_kind(out: &mut Vec<char>)
    ensures
        final(out)@ == old(out)@ + lit_kind(),
{
    let ghost o0 = out@;
    out.push(',');
    out.push(' ');
    out.push('k');
    out.push('i');
    out.push('n');
    out.push('d');
    out.push(':');
    out.push(' ');
    proof { reveal(lit_kind); }
    assert(out@ =~= o0 + lit_kind());
}

/// The text `])`.
#[verifier::opaque]
pub open spec fn lit_listclose() -> Seq<char> {
    seq![']', ')']
}

fn push_lit_listclose(out: &mut Vec<char>)
    ensures
        final(out)@ == old(out)@ + lit_listclose(),
{
    let ghost o0 = out@;
    out.push(']');
    out.push(')');
    proof { reveal(lit_listclose); }
    assert(out@ =~= o0 + lit_listclose());
}

/// The text `] }`.
#[verifier::opaque]
pub open spec fn lit_listend() -> Seq<char> {
    seq![']', ' ', '}']
}

fn push_lit_listend(out: &mut Vec<char>)
    ensures
        final(out)@ == old(out)@ + lit_listend(),
{
    let ghost o0 = out@;
    out.push(']');
    out.push(' ');
    out.push('}');
    proof { reveal(lit_listend); }
    assert(out@ =~= o0 + lit_listend());
}

/// The text `, members: [`.
#[verifier::opaque]
pub open spec fn lit_members() -> Seq<char> {
    seq![',', ' ', 'm', 'e', 'm', 'b', 'e', 'r', 's', ':', ' ', '[']
}

fn push_lit_members(out: &mut Vec<char>)
    ensures
        final(out)@ == old(out)@ + lit_members(),
{
    let ghost o0 = out@;
    out.push(',');
    out.push(' ');
    out.push('m');
    out.push('e');
    out.push('m');
    out.push('b');
    out.push('e');
    out.push('r');
    out.push('s');
    out.push(':');
    out.push(' ');
    out.push('[');
    proof { reveal(lit_members); }
    assert(out@ =~= o0 + lit_members());
}

/// The text ` { symbol: `.
#[verifier::opaque]
pub open spec fn lit_symbol() -> Seq<char> {
    seq![' ', '{', ' ', 's', 'y', 'm', 'b', 'o', 'l', ':', ' ']
}

fn push_lit_symbol(out: &mut Vec<char>)
    ensures
        final(out)@ == old(out)@ + lit_symbol(),
{
    let ghost o0 = out@;
    out.push(' ');
    out.push('{');
    out.push(' ');
    out.push('s');
    out.push('y');
    out.push('m');
    out.push('b');
    out.push('o');
    out.push('l');
    out.push(':');
    out.push(' ');
    proof { reveal(lit_symbol); }
    assert(out@ =~= o0 + lit_symbol());
}

/// The text `], τ: `.
#[verifier::opaque]
pub open spec fn lit_tau() -> Seq<char> {
    seq![']', ',', ' ', 'τ', ':', ' ']
}

fn push_lit_tau(out: &mut Vec<char>)
    ensures
        final(out)@ == old(out)@ + lit_tau(),
{
    let ghost o0 = out@;
    out.push(']');
    out.push(',');
    out.push(' ');
    out.push('τ');
    out.push(':');
    out.push(' ');
    proof { reveal(lit_tau); }
    assert(out@ =~= o0 + lit_tau());
}

/// The text `, ty: `.
#[verifier::opaque]
pub open spec fn lit_ty() -> Seq<char> {
    seq![',', ' ', 't', 'y', ':', ' ']
}

fn push_lit_ty(out: &mut Vec<char>)
    ensures
        final(out)@ == old(out)@ + lit_ty(),
{
    let ghost o0 = out@;
    out.push(',');
    out.push(' ');
    out.push('t');
    out.push('y');
    out.push(':');
    out.push(' ');
    proof { reveal(lit_ty); }
    assert(out@ =~= o0 + lit_ty());
}

/// The text `, variants: [`.
#[verifier::opaque]
pub open spec fn lit_variants() -> Seq<char> {
    seq![',', ' ', 'v', 'a', 'r', 'i', 'a', 'n', 't', 's', ':', ' ', '[']
}

fn push_lit_variants(out: &mut Vec<char>)
    ensures
        final(out)@ == old(out)@ + lit_variants(),
{
    let ghost o0 = out@;
    out.push(',');
    out.push(' ');
    out.push('v');
    out.push('a');
    out.push('r');
    out.push('i');
    out.push('a');
    out.push('n');
    out.push('t');
    out.push('s');
    out.push(':');
    out.push(' ');
    out.push('[');
    proof { reveal(lit_variants); }
    assert(out@ =~= o0 + lit_variants());
}

} // verus!
