//! The unparser: from type terms back to the ladder type syntax.

use vstd::prelude::*;
use crate::term::{TypeTerm, TermV, KindV, PairV, FieldV, EntryV, TypeKind, ConstraintPair, StructMember, EnumVariant, ContextEntry, terms_view, members_view, variants_view, entries_view, pairs_view, opt_view, lemma_terms_view, lemma_members_view, lemma_variants_view, lemma_entries_view, lemma_pairs_view};
use crate::dict::{TypeID, TypeDict, BimapTypeDict};
use crate::context::{ContextPtr, spec_typename, spec_varname};
use crate::numfmt::{spec_int_str, push_i64};
use crate::lexer::string_from_chars;

verus! {

/// The notation of a character literal, with `\0`, `\n`, `\t` and `\'` escaped.
pub open spec fn spec_char_lit(c: char) -> Seq<char> {
    if c == '\0' {
        seq!['\'', '\\', '0', '\'']
    } else if c == '\n' {
        seq!['\'', '\\', 'n', '\'']
    } else if c == '\t' {
        seq!['\'', '\\', 't', '\'']
    } else if c == '\'' {
        seq!['\'', '\\', '\'', '\'']
    } else {
        seq!['\'', c, '\'']
    }
}

/// The name of an identifier, or the placeholder where the dictionary has none.
pub open spec fn spec_name_or(names: Map<TypeID, Seq<char>>, id: TypeID, placeholder: Seq<char>) -> Seq<char> {
    if names.contains_key(id) { names[id] } else { placeholder }
}

pub open spec fn fun_placeholder() -> Seq<char> {
    seq!['?', 'F', 'u', 'n', '?']
}

pub open spec fn var_placeholder() -> Seq<char> {
    seq!['?', 'V', 'a', 'r', '?']
}

/// The part `~repr ` of a sequence, struct or enum type with a representation.
pub open spec fn spec_repr_part(names: Map<TypeID, Seq<char>>, repr: Option<Box<TermV>>) -> Option<Seq<char>>
    decreases repr,
{
    match repr {
        None => Some(Seq::empty()),
        Some(r) => match spec_unparse(names, *r) {
            Some(s) => Some(seq!['~'] + s + seq![' ']),
            None => None,
        },
    }
}

/// The notation of a term, with the names of `names`; `None` where a variable of a
/// universal type has an arrow kind, which has no notation.
pub open spec fn spec_unparse(names: Map<TypeID, Seq<char>>, t: TermV) -> Option<Seq<char>>
    decreases t,
{
    match t {
        TermV::Id(id) => Some(spec_name_or(names, TypeID::Fun(id), fun_placeholder())),
        TermV::Var(id) => Some(spec_name_or(names, TypeID::Var(id), var_placeholder())),
        TermV::Num(n) => Some(spec_int_str(n as int)),
        TermV::Char(c) => Some(spec_char_lit(c)),
        TermV::Ladder(rungs) => spec_unparse_join(names, rungs, seq!['~']),
        TermV::Spec(args) => match spec_unparse_join(names, args, seq![' ']) {
            Some(s) => Some(seq!['<'] + s + seq!['>']),
            None => None,
        },
        TermV::Func(ts) => spec_unparse_join(names, ts, seq!['-', '-', '>']),
        TermV::Morph(a, b) => match (spec_unparse(names, *a), spec_unparse(names, *b)) {
            (Some(x), Some(y)) => Some(x + seq!['-', 'm', 'o', 'r', 'p', 'h', '-', '>'] + y),
            _ => None,
        },
        TermV::Sequence { repr, item } => match (spec_repr_part(names, repr), spec_unparse(names, *item)) {
            (Some(r), Some(i)) => Some(seq!['['] + r + i + seq![']']),
            _ => None,
        },
        TermV::Struct { repr, members } => match (spec_repr_part(names, repr), spec_unparse_members(names, members)) {
            (Some(r), Some(m)) => Some(seq!['{'] + r + m + seq!['}']),
            _ => None,
        },
        TermV::Enum { repr, variants } => match (spec_repr_part(names, repr), spec_unparse_variants(names, variants)) {
            (Some(r), Some(v)) => Some(seq!['{'] + r + v + seq!['}']),
            _ => None,
        },
        TermV::Univ { gamma, bounds, tau } => match (spec_unparse_entries(names, gamma), spec_unparse_bounds(names, bounds), spec_unparse(names, *tau)) {
            (Some(g), Some(b), Some(x)) => Some(g + b + x),
            _ => None,
        },
    }
}

/// The notations of terms, joined by `sep`.
pub open spec fn spec_unparse_join(names: Map<TypeID, Seq<char>>, ts: Seq<TermV>, sep: Seq<char>) -> Option<Seq<char>>
    decreases ts,
{
    if ts.len() == 0 {
        Some(Seq::empty())
    } else {
        match (spec_unparse_join(names, ts.subrange(0, ts.len() - 1), sep), spec_unparse(names, ts[ts.len() - 1])) {
            (Some(a), Some(b)) => Some(if ts.len() == 1 { b } else { a + sep + b }),
            _ => None,
        }
    }
}

/// The members of a struct: `name: type; ` each.
pub open spec fn spec_unparse_members(names: Map<TypeID, Seq<char>>, ms: Seq<FieldV>) -> Option<Seq<char>>
    decreases ms,
{
    if ms.len() == 0 {
        Some(Seq::empty())
    } else {
        match (spec_unparse_members(names, ms.subrange(0, ms.len() - 1)), spec_unparse(names, ms[ms.len() - 1].ty)) {
            (Some(a), Some(b)) => Some(a + ms[ms.len() - 1].symbol + seq![':', ' '] + b + seq![';', ' ']),
            _ => None,
        }
    }
}

/// The variants of an enum: `| name: type` each.
pub open spec fn spec_unparse_variants(names: Map<TypeID, Seq<char>>, vs: Seq<FieldV>) -> Option<Seq<char>>
    decreases vs,
{
    if vs.len() == 0 {
        Some(Seq::empty())
    } else {
        match (spec_unparse_variants(names, vs.subrange(0, vs.len() - 1)), spec_unparse(names, vs[vs.len() - 1].ty)) {
            (Some(a), Some(b)) => Some(a + seq!['|', ' '] + vs[vs.len() - 1].symbol + seq![':', ' '] + b),
            _ => None,
        }
    }
}

/// The variables of a universal type: `∀name ` or `∀name:type ` each.
pub open spec fn spec_unparse_entries(names: Map<TypeID, Seq<char>>, es: Seq<EntryV>) -> Option<Seq<char>>
    decreases es,
{
    if es.len() == 0 {
        Some(Seq::empty())
    } else {
        let e = es[es.len() - 1];
        match spec_unparse_entries(names, es.subrange(0, es.len() - 1)) {
            None => None,
            Some(a) => match e.kind {
                KindV::Type => Some(a + seq!['∀'] + e.symbol + seq![' ']),
                KindV::Arrow(_, _) => None,
                KindV::Value(t) => match spec_unparse(names, *t) {
                    Some(b) => Some(a + seq!['∀'] + e.symbol + seq![':'] + b + seq![' ']),
                    None => None,
                },
            },
        }
    }
}

/// The relation between the two sides of a bound.
pub open spec fn spec_bound_rel(p: PairV) -> Seq<char> {
    match p {
        PairV::ValueOf(_, _) => seq![':'],
        PairV::Subtype(_, _) => seq![' ', '<', '=', ' '],
        PairV::Trait(_, _) => seq![' ', '>', '<', ' '],
        PairV::Parallel(_, _) => seq![' ', '|', '|', ' '],
    }
}

/// One bound: `(lhs rel rhs) `.
pub open spec fn spec_unparse_bound(names: Map<TypeID, Seq<char>>, p: PairV) -> Option<Seq<char>>
    decreases p,
{
    match p {
        PairV::ValueOf(l, r) => spec_unparse_bound_sides(names, spec_unparse(names, l), spec_bound_rel(p), spec_unparse(names, r)),
        PairV::Subtype(l, r) => spec_unparse_bound_sides(names, spec_unparse(names, l), spec_bound_rel(p), spec_unparse(names, r)),
        PairV::Trait(l, r) => spec_unparse_bound_sides(names, spec_unparse(names, l), spec_bound_rel(p), spec_unparse(names, r)),
        PairV::Parallel(l, r) => spec_unparse_bound_sides(names, spec_unparse(names, l), spec_bound_rel(p), spec_unparse(names, r)),
    }
}

pub open spec fn spec_unparse_bound_sides(names: Map<TypeID, Seq<char>>, x: Option<Seq<char>>, rel: Seq<char>, y: Option<Seq<char>>) -> Option<Seq<char>> {
    match (x, y) {
        (Some(a), Some(b)) => Some(seq!['('] + a + rel + b + seq![')', ' ']),
        _ => None,
    }
}

/// The bounds of a universal type: `(lhs rel rhs) ` each.
pub open spec fn spec_unparse_bounds(names: Map<TypeID, Seq<char>>, bs: Seq<PairV>) -> Option<Seq<char>>
    decreases bs,
{
    if bs.len() == 0 {
        Some(Seq::empty())
    } else {
        match (spec_unparse_bounds(names, bs.subrange(0, bs.len() - 1)), spec_unparse_bound(names, bs[bs.len() - 1])) {
            (Some(a), Some(b)) => Some(a + b),
            _ => None,
        }
    }
}

/// Something that knows the names of type identifiers.
pub trait TypeNames {
    /// The names of the identifiers.
    spec fn spec_names(&self) -> Map<TypeID, Seq<char>>;

    /// The name of an identifier.
    fn name_of(&self, id: TypeID) -> (r: Option<String>)
        ensures
            match r {
                Some(n) => self.spec_names().contains_key(id) && self.spec_names()[id] == n@,
                None => !self.spec_names().contains_key(id),
            },
    ;
}

/// Something that can write terms in the ladder type syntax, with the names it knows.
pub trait UnparseLadderType: TypeNames {
    /// The notation of `t`.
    fn unparse(&self, t: &TypeTerm) -> (r: String)
        requires
            spec_unparse(self.spec_names(), t@) is Some,
        ensures
            spec_unparse(self.spec_names(), t@) == Some(r@),
    ;
}

/// The notation of `t` with the names that `d` has.
fn unparse_with<D: TypeNames>(d: &D, t: &TypeTerm) -> (r: String)
    requires
        spec_unparse(d.spec_names(), t@) is Some,
    ensures
        spec_unparse(d.spec_names(), t@) == Some(r@),
{
    let mut out: Vec<char> = Vec::new();
    unparse_into(d, t, &mut out);
    assert(out@ =~= Seq::<char>::empty() + spec_unparse(d.spec_names(), t@).unwrap());
    string_from_chars(&out)
}

/// Appends the characters of `cs`.
pub(crate) fn push_chars(out: &mut Vec<char>, cs: &Vec<char>)
    ensures
        final(out)@ == old(out)@ + cs@,
{
    let mut i: usize = 0;
    while i < cs.len()
        invariant
            i <= cs.len(),
            out@ == old(out)@ + cs@.subrange(0, i as int),
        decreases cs.len() - i,
    {
        out.push(cs[i]);
        i += 1;
        assert(out@ =~= old(out)@ + cs@.subrange(0, i as int));
    }
    assert(cs@.subrange(0, cs.len() as int) =~= cs@);
}

/// Appends the characters of a string.
pub(crate) fn push_str(out: &mut Vec<char>, s: &str)
    ensures
        final(out)@ == old(out)@ + s@,
{
    for c in it: s.chars()
        invariant
            it.seq() == s@,
            out@ == old(out)@ + it.seq().subrange(0, it.index() as int),
    {
        out.push(c);
        assert(it.seq().subrange(0, it.index() + 1) =~= it.seq().subrange(0, it.index() as int).push(c));
    }
    assert(s@.subrange(0, s@.len() as int) =~= s@);
}

/// Appends the notation of a character literal.
fn push_char_lit(out: &mut Vec<char>, c: char)
    ensures
        final(out)@ == old(out)@ + spec_char_lit(c),
{
    out.push('\'');
    if c == '\0' {
        out.push('\\');
        out.push('0');
    } else if c == '\n' {
        out.push('\\');
        out.push('n');
    } else if c == '\t' {
        out.push('\\');
        out.push('t');
    } else if c == '\'' {
        out.push('\\');
        out.push('\'');
    } else {
        out.push(c);
    }
    out.push('\'');
    assert(out@ =~= old(out)@ + spec_char_lit(c));
}

/// A prefix of a joined list has a notation where the whole list has one, and one more
/// element adds its notation after the separator.
proof fn lemma_join_prefix(names: Map<TypeID, Seq<char>>, ts: Seq<TermV>, sep: Seq<char>, i: int)
    requires
        0 <= i <= ts.len(),
        spec_unparse_join(names, ts, sep) is Some,
    ensures
        spec_unparse_join(names, ts.subrange(0, i), sep) is Some,
        i < ts.len() ==> spec_unparse(names, ts[i]) is Some,
    decreases ts.len() - i,
{
    if i < ts.len() {
        lemma_join_prefix(names, ts, sep, i + 1);
        let p = ts.subrange(0, i + 1);
        assert(p.subrange(0, i) =~= ts.subrange(0, i));
        assert(p[i] == ts[i]);
    } else {
        assert(ts.subrange(0, i) =~= ts);
    }
}

proof fn lemma_members_prefix(names: Map<TypeID, Seq<char>>, ms: Seq<FieldV>, i: int)
    requires
        0 <= i <= ms.len(),
        spec_unparse_members(names, ms) is Some,
    ensures
        spec_unparse_members(names, ms.subrange(0, i)) is Some,
        i < ms.len() ==> spec_unparse(names, ms[i].ty) is Some,
    decreases ms.len() - i,
{
    if i < ms.len() {
        lemma_members_prefix(names, ms, i + 1);
        let p = ms.subrange(0, i + 1);
        assert(p.subrange(0, i) =~= ms.subrange(0, i));
        assert(p[i] == ms[i]);
    } else {
        assert(ms.subrange(0, i) =~= ms);
    }
}

proof fn lemma_variants_prefix(names: Map<TypeID, Seq<char>>, vs: Seq<FieldV>, i: int)
    requires
        0 <= i <= vs.len(),
        spec_unparse_variants(names, vs) is Some,
    ensures
        spec_unparse_variants(names, vs.subrange(0, i)) is Some,
        i < vs.len() ==> spec_unparse(names, vs[i].ty) is Some,
    decreases vs.len() - i,
{
    if i < vs.len() {
        lemma_variants_prefix(names, vs, i + 1);
        let p = vs.subrange(0, i + 1);
        assert(p.subrange(0, i) =~= vs.subrange(0, i));
        assert(p[i] == vs[i]);
    } else {
        assert(vs.subrange(0, i) =~= vs);
    }
}

proof fn lemma_entries_prefix(names: Map<TypeID, Seq<char>>, es: Seq<EntryV>, i: int)
    requires
        0 <= i <= es.len(),
        spec_unparse_entries(names, es) is Some,
    ensures
        spec_unparse_entries(names, es.subrange(0, i)) is Some,
        i < es.len() ==> !(es[i].kind is Arrow),
        i < es.len() ==> (es[i].kind matches KindV::Value(t) ==> spec_unparse(names, *t) is Some),
    decreases es.len() - i,
{
    if i < es.len() {
        lemma_entries_prefix(names, es, i + 1);
        let p = es.subrange(0, i + 1);
        assert(p.subrange(0, i) =~= es.subrange(0, i));
        assert(p[i] == es[i]);
    } else {
        assert(es.subrange(0, i) =~= es);
    }
}

proof fn lemma_bounds_prefix(names: Map<TypeID, Seq<char>>, bs: Seq<PairV>, i: int)
    requires
        0 <= i <= bs.len(),
        spec_unparse_bounds(names, bs) is Some,
    ensures
        spec_unparse_bounds(names, bs.subrange(0, i)) is Some,
        i < bs.len() ==> spec_unparse_bound(names, bs[i]) is Some,
    decreases bs.len() - i,
{
    if i < bs.len() {
        lemma_bounds_prefix(names, bs, i + 1);
        let p = bs.subrange(0, i + 1);
        assert(p.subrange(0, i) =~= bs.subrange(0, i));
        assert(p[i] == bs[i]);
    } else {
        assert(bs.subrange(0, i) =~= bs);
    }
}

/// Appends the name of an identifier, or the placeholder.
fn push_name<D: TypeNames>(d: &D, id: TypeID, placeholder: &Vec<char>, out: &mut Vec<char>)
    ensures
        final(out)@ == old(out)@ + spec_name_or(d.spec_names(), id, placeholder@),
{
    match d.name_of(id) {
        Some(n) => push_str(out, n.as_str()),
        None => push_chars(out, placeholder),
    }
}

/// Appends the notation of `t`.
fn unparse_into<D: TypeNames>(d: &D, t: &TypeTerm, out: &mut Vec<char>)
    requires
        spec_unparse(d.spec_names(), t@) is Some,
    ensures
        final(out)@ == old(out)@ + spec_unparse(d.spec_names(), t@).unwrap(),
    decreases t,
{
    let ghost names = d.spec_names();
    let ghost o0 = out@;
    match t {
        TypeTerm::Id(id) => {
            let ph: Vec<char> = vec!['?', 'F', 'u', 'n', '?'];
            assert(ph@ =~= fun_placeholder());
            push_name(d, TypeID::Fun(*id), &ph, out);
        },
        TypeTerm::Var(id) => {
            let ph: Vec<char> = vec!['?', 'V', 'a', 'r', '?'];
            assert(ph@ =~= var_placeholder());
            push_name(d, TypeID::Var(*id), &ph, out);
        },
        TypeTerm::Num(n) => push_i64(out, *n),
        TypeTerm::Char(c) => push_char_lit(out, *c),
        TypeTerm::Ladder(rungs) => {
            let sep: Vec<char> = vec!['~'];
            assert(sep@ =~= seq!['~']);
            unparse_join(d, rungs, &sep, out);
        },
        TypeTerm::Spec(args) => {
            let sep: Vec<char> = vec![' '];
            assert(sep@ =~= seq![' ']);
            out.push('<');
            unparse_join(d, args, &sep, out);
            out.push('>');
            assert(out@ =~= o0 + spec_unparse(names, t@).unwrap());
        },
        TypeTerm::Func(ts) => {
            let sep: Vec<char> = vec!['-', '-', '>'];
            assert(sep@ =~= seq!['-', '-', '>']);
            unparse_join(d, ts, &sep, out);
        },
        TypeTerm::Morph(a, b) => {
            let arrow: Vec<char> = vec!['-', 'm', 'o', 'r', 'p', 'h', '-', '>'];
            assert(arrow@ =~= seq!['-', 'm', 'o', 'r', 'p', 'h', '-', '>']);
            unparse_into(d, a, out);
            push_chars(out, &arrow);
            unparse_into(d, b, out);
            assert(out@ =~= o0 + spec_unparse(names, t@).unwrap());
        },
        TypeTerm::Sequence { seq_repr, item } => {
            out.push('[');
            unparse_repr(d, seq_repr, out);
            unparse_into(d, item, out);
            out.push(']');
            assert(out@ =~= o0 + spec_unparse(names, t@).unwrap());
        },
        TypeTerm::Struct { struct_repr, members } => {
            out.push('{');
            unparse_repr(d, struct_repr, out);
            unparse_members(d, members, out);
            out.push('}');
            assert(out@ =~= o0 + spec_unparse(names, t@).unwrap());
        },
        TypeTerm::Enum { enum_repr, variants } => {
            out.push('{');
            unparse_repr(d, enum_repr, out);
            unparse_variants(d, variants, out);
            out.push('}');
            assert(out@ =~= o0 + spec_unparse(names, t@).unwrap());
        },
        TypeTerm::Univ { gamma, bounds, tau } => {
            unparse_entries(d, gamma, out);
            unparse_bounds(d, bounds, out);
            unparse_into(d, tau, out);
            assert(out@ =~= o0 + spec_unparse(names, t@).unwrap());
        },
    }
}

/// Appends `~repr ` where there is a representation.
fn unparse_repr<D: TypeNames>(d: &D, r: &Option<Box<TypeTerm>>, out: &mut Vec<char>)
    requires
        spec_repr_part(d.spec_names(), opt_view(*r)) is Some,
    ensures
        final(out)@ == old(out)@ + spec_repr_part(d.spec_names(), opt_view(*r)).unwrap(),
    decreases r,
{
    match r {
        None => {
            assert(out@ =~= old(out)@ + Seq::<char>::empty());
        },
        Some(b) => {
            out.push('~');
            unparse_into(d, b, out);
            out.push(' ');
            assert(out@ =~= old(out)@ + spec_repr_part(d.spec_names(), opt_view(*r)).unwrap());
        },
    }
}

/// Appends the notations of the terms, joined by `sep`.
fn unparse_join<D: TypeNames>(d: &D, v: &Vec<TypeTerm>, sep: &Vec<char>, out: &mut Vec<char>)
    requires
        spec_unparse_join(d.spec_names(), terms_view(v@), sep@) is Some,
    ensures
        final(out)@ == old(out)@ + spec_unparse_join(d.spec_names(), terms_view(v@), sep@).unwrap(),
    decreases v,
{
    let ghost names = d.spec_names();
    let ghost tv = terms_view(v@);
    proof {
        lemma_terms_view(v@);
        assert(tv.subrange(0, 0) =~= Seq::<TermV>::empty());
    }
    let mut i: usize = 0;
    while i < v.len()
        invariant
            i <= v.len(),
            tv == terms_view(v@),
            tv.len() == v.len(),
            forall|j: int| 0 <= j < v.len() ==> #[trigger] tv[j] == v@[j]@,
            spec_unparse_join(names, tv, sep@) is Some,
            names == d.spec_names(),
            out@ == old(out)@ + spec_unparse_join(names, tv.subrange(0, i as int), sep@).unwrap(),
        decreases v.len() - i,
    {
        proof {
            lemma_join_prefix(names, tv, sep@, i as int);
            lemma_join_prefix(names, tv, sep@, i + 1);
        }
        let ghost before = out@;
        let ghost p = tv.subrange(0, i + 1);
        assert(p.subrange(0, i as int) =~= tv.subrange(0, i as int));
        assert(p[i as int] == v@[i as int]@);
        if i > 0 {
            push_chars(out, sep);
        }
        unparse_into(d, &v[i], out);
        assert(out@ =~= old(out)@ + spec_unparse_join(names, p, sep@).unwrap());
        i += 1;
    }
    assert(tv.subrange(0, v.len() as int) =~= tv);
}

/// Appends the members of a struct.
fn unparse_members<D: TypeNames>(d: &D, v: &Vec<StructMember>, out: &mut Vec<char>)
    requires
        spec_unparse_members(d.spec_names(), members_view(v@)) is Some,
    ensures
        final(out)@ == old(out)@ + spec_unparse_members(d.spec_names(), members_view(v@)).unwrap(),
    decreases v,
{
    let ghost names = d.spec_names();
    let ghost mv = members_view(v@);
    proof {
        lemma_members_view(v@);
        assert(mv.subrange(0, 0) =~= Seq::<FieldV>::empty());
    }
    let sep: Vec<char> = vec![':', ' '];
    let term: Vec<char> = vec![';', ' '];
    assert(sep@ =~= seq![':', ' ']);
    assert(term@ =~= seq![';', ' ']);
    let mut i: usize = 0;
    while i < v.len()
        invariant
            i <= v.len(),
            mv == members_view(v@),
            mv.len() == v.len(),
            forall|j: int| 0 <= j < v.len() ==> #[trigger] mv[j] == v@[j]@,
            spec_unparse_members(names, mv) is Some,
            names == d.spec_names(),
            sep@ == seq![':', ' '],
            term@ == seq![';', ' '],
            out@ == old(out)@ + spec_unparse_members(names, mv.subrange(0, i as int)).unwrap(),
        decreases v.len() - i,
    {
        proof {
            lemma_members_prefix(names, mv, i as int);
            lemma_members_prefix(names, mv, i + 1);
        }
        let ghost p = mv.subrange(0, i + 1);
        assert(p.subrange(0, i as int) =~= mv.subrange(0, i as int));
        assert(p[i as int] == v@[i as int]@);
        push_str(out, v[i].symbol.as_str());
        push_chars(out, &sep);
        unparse_into(d, &v[i].ty, out);
        push_chars(out, &term);
        assert(out@ =~= old(out)@ + spec_unparse_members(names, p).unwrap());
        i += 1;
    }
    assert(mv.subrange(0, v.len() as int) =~= mv);
}

/// Appends the variants of an enum.
fn unparse_variants<D: TypeNames>(d: &D, v: &Vec<EnumVariant>, out: &mut Vec<char>)
    requires
        spec_unparse_variants(d.spec_names(), variants_view(v@)) is Some,
    ensures
        final(out)@ == old(out)@ + spec_unparse_variants(d.spec_names(), variants_view(v@)).unwrap(),
    decreases v,
{
    let ghost names = d.spec_names();
    let ghost vv = variants_view(v@);
    proof {
        lemma_variants_view(v@);
        assert(vv.subrange(0, 0) =~= Seq::<FieldV>::empty());
    }
    let bar: Vec<char> = vec!['|', ' '];
    let sep: Vec<char> = vec![':', ' '];
    assert(bar@ =~= seq!['|', ' ']);
    assert(sep@ =~= seq![':', ' ']);
    let mut i: usize = 0;
    while i < v.len()
        invariant
            i <= v.len(),
            vv == variants_view(v@),
            vv.len() == v.len(),
            forall|j: int| 0 <= j < v.len() ==> #[trigger] vv[j] == v@[j]@,
            spec_unparse_variants(names, vv) is Some,
            names == d.spec_names(),
            bar@ == seq!['|', ' '],
            sep@ == seq![':', ' '],
            out@ == old(out)@ + spec_unparse_variants(names, vv.subrange(0, i as int)).unwrap(),
        decreases v.len() - i,
    {
        proof {
            lemma_variants_prefix(names, vv, i as int);
            lemma_variants_prefix(names, vv, i + 1);
        }
        let ghost p = vv.subrange(0, i + 1);
        assert(p.subrange(0, i as int) =~= vv.subrange(0, i as int));
        assert(p[i as int] == v@[i as int]@);
        push_chars(out, &bar);
        push_str(out, v[i].symbol.as_str());
        push_chars(out, &sep);
        unparse_into(d, &v[i].ty, out);
        assert(out@ =~= old(out)@ + spec_unparse_variants(names, p).unwrap());
        i += 1;
    }
    assert(vv.subrange(0, v.len() as int) =~= vv);
}

/// Appends the variables of a universal type.
fn unparse_entries<D: TypeNames>(d: &D, v: &Vec<ContextEntry>, out: &mut Vec<char>)
    requires
        spec_unparse_entries(d.spec_names(), entries_view(v@)) is Some,
    ensures
        final(out)@ == old(out)@ + spec_unparse_entries(d.spec_names(), entries_view(v@)).unwrap(),
    decreases v,
{
    let ghost names = d.spec_names();
    let ghost ev = entries_view(v@);
    proof {
        lemma_entries_view(v@);
        assert(ev.subrange(0, 0) =~= Seq::<EntryV>::empty());
    }
    let mut i: usize = 0;
    while i < v.len()
        invariant
            i <= v.len(),
            ev == entries_view(v@),
            ev.len() == v.len(),
            forall|j: int| 0 <= j < v.len() ==> #[trigger] ev[j] == v@[j]@,
            spec_unparse_entries(names, ev) is Some,
            names == d.spec_names(),
            out@ == old(out)@ + spec_unparse_entries(names, ev.subrange(0, i as int)).unwrap(),
        decreases v.len() - i,
    {
        proof {
            lemma_entries_prefix(names, ev, i as int);
            lemma_entries_prefix(names, ev, i + 1);
        }
        let ghost p = ev.subrange(0, i + 1);
        assert(p.subrange(0, i as int) =~= ev.subrange(0, i as int));
        assert(p[i as int] == v@[i as int]@);
        out.push('∀');
        push_str(out, v[i].symbol.as_str());
        match &v[i].kind {
            TypeKind::Type => {},
            TypeKind::Arrow(_, _) => {
                proof { assert(false); }
            },
            TypeKind::Value(t) => {
                out.push(':');
                unparse_into(d, t, out);
            },
        }
        out.push(' ');
        assert(out@ =~= old(out)@ + spec_unparse_entries(names, p).unwrap());
        i += 1;
    }
    assert(ev.subrange(0, v.len() as int) =~= ev);
}

/// Appends one bound.
fn unparse_bound<D: TypeNames>(d: &D, p: &ConstraintPair, out: &mut Vec<char>)
    requires
        spec_unparse_bound(d.spec_names(), p@) is Some,
    ensures
        final(out)@ == old(out)@ + spec_unparse_bound(d.spec_names(), p@).unwrap(),
    decreases p,
{
    let (l, r, rel): (&TypeTerm, &TypeTerm, Vec<char>) = match p {
        ConstraintPair::ValueOf(a, b) => (a, b, vec![':']),
        ConstraintPair::Subtype(a, b) => (a, b, vec![' ', '<', '=', ' ']),
        ConstraintPair::Trait(a, b) => (a, b, vec![' ', '>', '<', ' ']),
        ConstraintPair::Parallel(a, b) => (a, b, vec![' ', '|', '|', ' ']),
    };
    assert(rel@ =~= spec_bound_rel(p@));
    assert(spec_unparse_bound(d.spec_names(), p@) == spec_unparse_bound_sides(d.spec_names(), spec_unparse(d.spec_names(), l@), rel@, spec_unparse(d.spec_names(), r@)));
    out.push('(');
    unparse_into(d, l, out);
    push_chars(out, &rel);
    unparse_into(d, r, out);
    out.push(')');
    out.push(' ');
    assert(out@ =~= old(out)@ + spec_unparse_bound(d.spec_names(), p@).unwrap());
}

/// Appends the bounds of a universal type.
fn unparse_bounds<D: TypeNames>(d: &D, v: &Vec<ConstraintPair>, out: &mut Vec<char>)
    requires
        spec_unparse_bounds(d.spec_names(), pairs_view(v@)) is Some,
    ensures
        final(out)@ == old(out)@ + spec_unparse_bounds(d.spec_names(), pairs_view(v@)).unwrap(),
    decreases v,
{
    let ghost names = d.spec_names();
    let ghost bv = pairs_view(v@);
    proof {
        lemma_pairs_view(v@);
        assert(bv.subrange(0, 0) =~= Seq::<PairV>::empty());
    }
    let mut i: usize = 0;
    while i < v.len()
        invariant
            i <= v.len(),
            bv == pairs_view(v@),
            bv.len() == v.len(),
            forall|j: int| 0 <= j < v.len() ==> #[trigger] bv[j] == v@[j]@,
            spec_unparse_bounds(names, bv) is Some,
            names == d.spec_names(),
            out@ == old(out)@ + spec_unparse_bounds(names, bv.subrange(0, i as int)).unwrap(),
        decreases v.len() - i,
    {
        proof {
            lemma_bounds_prefix(names, bv, i as int);
            lemma_bounds_prefix(names, bv, i + 1);
        }
        let ghost p = bv.subrange(0, i + 1);
        assert(p.subrange(0, i as int) =~= bv.subrange(0, i as int));
        assert(p[i as int] == v@[i as int]@);
        unparse_bound(d, &v[i], out);
        assert(out@ =~= old(out)@ + spec_unparse_bounds(names, p).unwrap());
        i += 1;
    }
    assert(bv.subrange(0, v.len() as int) =~= bv);
}

impl TypeNames for BimapTypeDict {
    open spec fn spec_names(&self) -> Map<TypeID, Seq<char>> {
        self.spec_by_id()
    }

    fn name_of(&self, id: TypeID) -> (r: Option<String>) {
        self.get_name(id)
    }
}

impl UnparseLadderType for BimapTypeDict {
    fn unparse(&self, t: &TypeTerm) -> (r: String) {
        unparse_with(self, t)
    }
}

/// The name of an identifier in a context.
pub open spec fn spec_ctx_name(c: crate::context::CtxV, id: TypeID) -> Option<Seq<char>> {
    match id {
        TypeID::Fun(i) => spec_typename(c, i as int),
        TypeID::Var(i) => spec_varname(c, i as int),
    }
}

/// The names of the identifiers of a context.
pub open spec fn spec_ctx_names(c: crate::context::CtxV) -> Map<TypeID, Seq<char>> {
    Map::new(|id: TypeID| spec_ctx_name(c, id) is Some, |id: TypeID| spec_ctx_name(c, id).unwrap())
}

impl TypeNames for ContextPtr {
    open spec fn spec_names(&self) -> Map<TypeID, Seq<char>> {
        spec_ctx_names(self@)
    }

    fn name_of(&self, id: TypeID) -> (r: Option<String>) {
        match id {
            TypeID::Fun(i) => self.get_typename(i),
            TypeID::Var(i) => self.get_varname(i),
        }
    }
}

impl UnparseLadderType for ContextPtr {
    fn unparse(&self, t: &TypeTerm) -> (r: String) {
        unparse_with(self, t)
    }
}

} // verus!
