//! Currying of type applications: `<A B C>` and `<<A B> C>` denote the same type.

use vstd::prelude::*;
use crate::term::{
    TypeTerm, TermV, term_view, terms_view, lemma_terms_view, lemma_terms_view_push, copy_terms,
};

verus! {

/// The arguments of a curried application: `[a0, a1, a2, a3]` becomes `[<<a0 a1> a2>, a3]`.
pub open spec fn spec_curry_args(s: Seq<TermV>) -> Seq<TermV>
    decreases s.len(),
{
    if s.len() <= 2 {
        s
    } else {
        seq![TermV::Spec(spec_curry_args(s.subrange(0, s.len() - 1))), s[s.len() - 1]]
    }
}

/// Curries every application with at least two arguments, also inside ladders.
pub open spec fn spec_curry(t: TermV) -> TermV
    decreases t,
{
    match t {
        TermV::Spec(args) => if args.len() >= 2 { TermV::Spec(spec_curry_args(args)) } else { t },
        TermV::Ladder(rungs) => TermV::Ladder(spec_curry_seq(rungs)),
        _ => t,
    }
}

pub open spec fn spec_curry_seq(s: Seq<TermV>) -> Seq<TermV>
    decreases s,
{
    if s.len() == 0 {
        Seq::empty()
    } else {
        spec_curry_seq(s.subrange(0, s.len() - 1)).push(spec_curry(s[s.len() - 1]))
    }
}

/// Merges a leading application into its parent: `<<a b> c>` becomes `<a b c>`.
pub open spec fn spec_decurry(t: TermV) -> TermV
    decreases t,
{
    match t {
        TermV::Spec(args) => {
            if args.len() > 0 {
                match spec_decurry(args[0]) {
                    TermV::Spec(sub) => TermV::Spec(sub + args.subrange(1, args.len() as int)),
                    other => TermV::Spec(seq![other] + args.subrange(1, args.len() as int)),
                }
            } else {
                t
            }
        },
        TermV::Ladder(rungs) => TermV::Ladder(spec_decurry_seq(rungs)),
        _ => t,
    }
}

pub open spec fn spec_decurry_seq(s: Seq<TermV>) -> Seq<TermV>
    decreases s,
{
    if s.len() == 0 {
        Seq::empty()
    } else {
        spec_decurry_seq(s.subrange(0, s.len() - 1)).push(spec_decurry(s[s.len() - 1]))
    }
}

fn curry_seq(v: &Vec<TypeTerm>) -> (r: Vec<TypeTerm>)
    ensures
        terms_view(r@) == spec_curry_seq(terms_view(v@)),
    decreases v,
{
    let ghost sv = terms_view(v@);
    proof { lemma_terms_view(v@); }
    let mut r: Vec<TypeTerm> = Vec::new();
    let mut i: usize = 0;
    assert(terms_view(r@) =~= spec_curry_seq(sv.subrange(0, 0)));
    while i < v.len()
        invariant
            i <= v.len(),
            sv == terms_view(v@),
            sv.len() == v.len(),
            forall|j: int| 0 <= j < v.len() ==> #[trigger] sv[j] == term_view(v@[j]),
            terms_view(r@) == spec_curry_seq(sv.subrange(0, i as int)),
        decreases v.len() - i,
    {
        let t = v[i].curry_ref();
        proof {
            lemma_terms_view_push(r@, t);
            assert(sv.subrange(0, i + 1).subrange(0, i as int) =~= sv.subrange(0, i as int));
        }
        r.push(t);
        i += 1;
    }
    assert(sv.subrange(0, v.len() as int) =~= sv);
    r
}

fn decurry_seq(v: &Vec<TypeTerm>) -> (r: Vec<TypeTerm>)
    ensures
        terms_view(r@) == spec_decurry_seq(terms_view(v@)),
    decreases v,
{
    let ghost sv = terms_view(v@);
    proof { lemma_terms_view(v@); }
    let mut r: Vec<TypeTerm> = Vec::new();
    let mut i: usize = 0;
    assert(terms_view(r@) =~= spec_decurry_seq(sv.subrange(0, 0)));
    while i < v.len()
        invariant
            i <= v.len(),
            sv == terms_view(v@),
            sv.len() == v.len(),
            forall|j: int| 0 <= j < v.len() ==> #[trigger] sv[j] == term_view(v@[j]),
            terms_view(r@) == spec_decurry_seq(sv.subrange(0, i as int)),
        decreases v.len() - i,
    {
        let t = v[i].decurry_ref();
        proof {
            lemma_terms_view_push(r@, t);
            assert(sv.subrange(0, i + 1).subrange(0, i as int) =~= sv.subrange(0, i as int));
        }
        r.push(t);
        i += 1;
    }
    assert(sv.subrange(0, v.len() as int) =~= sv);
    r
}

/// Appends copies of `v[from..]` to `r`.
fn append_suffix(r: &mut Vec<TypeTerm>, v: &Vec<TypeTerm>, from: usize)
    requires
        from <= v.len(),
    ensures
        terms_view(final(r)@) == terms_view(old(r)@) + terms_view(v@).subrange(from as int, v.len() as int),
{
    let ghost sv = terms_view(v@);
    let ghost base = terms_view(r@);
    proof { lemma_terms_view(v@); }
    let mut i: usize = from;
    while i < v.len()
        invariant
            from <= i <= v.len(),
            sv == terms_view(v@),
            sv.len() == v.len(),
            forall|j: int| 0 <= j < v.len() ==> #[trigger] sv[j] == term_view(v@[j]),
            terms_view(r@) == base + sv.subrange(from as int, i as int),
        decreases v.len() - i,
    {
        let t = v[i].copy();
        proof {
            lemma_terms_view_push(r@, t);
            assert(base + sv.subrange(from as int, i + 1) =~= (base + sv.subrange(from as int, i as int)).push(sv[i as int]));
        }
        r.push(t);
        i += 1;
    }
}

impl TypeTerm {
    /// Curries without consuming the term.
    pub fn curry_ref(&self) -> (r: TypeTerm)
        ensures
            r@ == spec_curry(self@),
        decreases self,
    {
        match self {
            TypeTerm::Spec(args) => {
                let ghost sv = terms_view(args@);
                proof { lemma_terms_view(args@); }
                if args.len() >= 2 {
                    let mut new_args: Vec<TypeTerm> = Vec::new();
                    let a0 = args[0].copy();
                    let a1 = args[1].copy();
                    proof { lemma_terms_view_push(new_args@, a0); }
                    new_args.push(a0);
                    proof { lemma_terms_view_push(new_args@, a1); }
                    new_args.push(a1);
                    assert(terms_view(new_args@) =~= sv.subrange(0, 2));
                    let mut i: usize = 2;
                    while i < args.len()
                        invariant
                            2 <= i <= args.len(),
                            sv == terms_view(args@),
                            sv.len() == args.len(),
                            forall|j: int| 0 <= j < args.len() ==> #[trigger] sv[j] == term_view(args@[j]),
                            terms_view(new_args@) == spec_curry_args(sv.subrange(0, i as int)),
                        decreases args.len() - i,
                    {
                        let x = args[i].copy();
                        let inner = TypeTerm::Spec(new_args);
                        let mut next: Vec<TypeTerm> = Vec::new();
                        proof { lemma_terms_view_push(next@, inner); }
                        next.push(inner);
                        proof { lemma_terms_view_push(next@, x); }
                        next.push(x);
                        proof {
                            assert(sv.subrange(0, i + 1).subrange(0, i as int) =~= sv.subrange(0, i as int));
                            assert(terms_view(next@) =~= spec_curry_args(sv.subrange(0, i + 1)));
                        }
                        new_args = next;
                        i += 1;
                    }
                    assert(sv.subrange(0, args.len() as int) =~= sv);
                    TypeTerm::Spec(new_args)
                } else {
                    TypeTerm::Spec(copy_terms(args))
                }
            },
            TypeTerm::Ladder(rungs) => TypeTerm::Ladder(curry_seq(rungs)),
            _ => self.copy(),
        }
    }

    /// Transforms the term to have at most two entries in each application.
    pub fn curry(self) -> (r: TypeTerm)
        ensures
            r@ == spec_curry(self@),
    {
        self.curry_ref()
    }

    /// Decurries without consuming the term.
    pub fn decurry_ref(&self) -> (r: TypeTerm)
        ensures
            r@ == spec_decurry(self@),
        decreases self,
    {
        match self {
            TypeTerm::Spec(args) => {
                proof { lemma_terms_view(args@); }
                if args.len() > 0 {
                    let a0 = args[0].decurry_ref();
                    match a0 {
                        TypeTerm::Spec(sub) => {
                            let mut r = sub;
                            append_suffix(&mut r, args, 1);
                            TypeTerm::Spec(r)
                        },
                        other => {
                            let mut r: Vec<TypeTerm> = Vec::new();
                            proof { lemma_terms_view_push(r@, other); }
                            r.push(other);
                            assert(terms_view(r@) =~= seq![other@]);
                            append_suffix(&mut r, args, 1);
                            TypeTerm::Spec(r)
                        },
                    }
                } else {
                    TypeTerm::Spec(copy_terms(args))
                }
            },
            TypeTerm::Ladder(rungs) => TypeTerm::Ladder(decurry_seq(rungs)),
            _ => self.copy(),
        }
    }

    /// Summarizes all curried applications into one application.
    pub fn decurry(self) -> (r: TypeTerm)
        ensures
            r@ == spec_decurry(self@),
    {
        self.decurry_ref()
    }
}


//------------------------------------------------------------------
// Laws
//------------------------------------------------------------------

/// A term is decurried when no application starts with another application.
pub open spec fn spec_is_decurried(t: TermV) -> bool
    decreases t,
{
    match t {
        TermV::Spec(args) => args.len() == 0 || (!(args[0] is Spec) && spec_is_decurried(args[0])),
        TermV::Ladder(rungs) => spec_all_decurried(rungs),
        _ => true,
    }
}

pub open spec fn spec_all_decurried(s: Seq<TermV>) -> bool
    decreases s,
{
    if s.len() == 0 {
        true
    } else {
        spec_all_decurried(s.subrange(0, s.len() - 1)) && spec_is_decurried(s[s.len() - 1])
    }
}

/// Decurrying leaves a decurried term unchanged.
pub proof fn law_decurry_fixes_decurried(t: TermV)
    requires
        spec_is_decurried(t),
    ensures
        spec_decurry(t) == t,
    decreases t,
{
    match t {
        TermV::Spec(args) => {
            if args.len() > 0 {
                law_decurry_fixes_decurried(args[0]);
                assert(seq![args[0]] + args.subrange(1, args.len() as int) =~= args);
            }
        },
        TermV::Ladder(rungs) => {
            lemma_decurry_seq_fixes(rungs);
        },
        _ => {},
    }
}

proof fn lemma_decurry_seq_fixes(s: Seq<TermV>)
    requires
        spec_all_decurried(s),
    ensures
        spec_decurry_seq(s) == s,
    decreases s,
{
    if s.len() > 0 {
        lemma_decurry_seq_fixes(s.subrange(0, s.len() - 1));
        law_decurry_fixes_decurried(s[s.len() - 1]);
        assert(s.subrange(0, s.len() - 1).push(s[s.len() - 1]) =~= s);
    }
}

proof fn lemma_decurry_curry_args(s: Seq<TermV>)
    requires
        s.len() >= 2,
        !(s[0] is Spec),
        spec_is_decurried(s[0]),
    ensures
        spec_decurry(TermV::Spec(spec_curry_args(s))) == TermV::Spec(s),
    decreases s.len(),
{
    if s.len() == 2 {
        law_decurry_fixes_decurried(TermV::Spec(s));
    } else {
        let s0 = s.subrange(0, s.len() - 1);
        lemma_decurry_curry_args(s0);
        let ca = spec_curry_args(s);
        assert(ca == seq![TermV::Spec(spec_curry_args(s0)), s[s.len() - 1]]);
        assert(ca.subrange(1, ca.len() as int) =~= seq![s[s.len() - 1]]);
        assert(s0 + seq![s[s.len() - 1]] =~= s);
    }
}

/// Currying, then decurrying, gives back a decurried term.
pub proof fn law_decurry_curry(t: TermV)
    requires
        spec_is_decurried(t),
    ensures
        spec_decurry(spec_curry(t)) == t,
    decreases t,
{
    match t {
        TermV::Spec(args) => {
            if args.len() >= 2 {
                lemma_decurry_curry_args(args);
            } else {
                law_decurry_fixes_decurried(t);
            }
        },
        TermV::Ladder(rungs) => {
            lemma_decurry_curry_seq(rungs);
        },
        _ => {},
    }
}

proof fn lemma_decurry_curry_seq(s: Seq<TermV>)
    requires
        spec_all_decurried(s),
    ensures
        spec_decurry_seq(spec_curry_seq(s)) == s,
    decreases s,
{
    if s.len() > 0 {
        let s0 = s.subrange(0, s.len() - 1);
        lemma_decurry_curry_seq(s0);
        law_decurry_curry(s[s.len() - 1]);
        let c = spec_curry_seq(s);
        assert(c.subrange(0, c.len() - 1) =~= spec_curry_seq(s0));
        lemma_curry_seq_len(s);
        assert(s0.push(s[s.len() - 1]) =~= s);
    }
}

proof fn lemma_curry_seq_len(s: Seq<TermV>)
    ensures
        spec_curry_seq(s).len() == s.len(),
    decreases s.len(),
{
    if s.len() > 0 {
        lemma_curry_seq_len(s.subrange(0, s.len() - 1));
    }
}

/// The curried argument list has at most two entries, and where it is shorter than the
/// given one, its first entry is the application of the curried prefix.
proof fn lemma_curry_args_len(s: Seq<TermV>)
    ensures
        spec_curry_args(s).len() <= 2,
        s.len() <= 2 ==> spec_curry_args(s) == s,
        s.len() > 2 ==> spec_curry_args(s)[0] == TermV::Spec(spec_curry_args(s.subrange(0, s.len() - 1))),
{
}

/// Each rung of a curried ladder is the curried rung.
proof fn lemma_curry_seq_index(s: Seq<TermV>, i: int)
    requires
        0 <= i < s.len(),
    ensures
        spec_curry_seq(s)[i] == spec_curry(s[i]),
    decreases s.len(),
{
    lemma_curry_seq_len(s.subrange(0, s.len() - 1));
    if i < s.len() - 1 {
        lemma_curry_seq_index(s.subrange(0, s.len() - 1), i);
    }
}

/// Currying leaves at most two entries in the application list of a term, in that of
/// each application rung of a ladder, and in each application it builds from a prefix of
/// the arguments.
pub proof fn law_curry_at_most_two(t: TermV)
    ensures
        spec_curry(t) matches TermV::Spec(a) ==> a.len() <= 2,
        spec_curry(t) matches TermV::Ladder(rs) ==> forall|i: int| 0 <= i < rs.len() ==>
            (#[trigger] rs[i] matches TermV::Spec(a) ==> a.len() <= 2),
{
    match t {
        TermV::Spec(args) => {
            lemma_curry_args_len(args);
        },
        TermV::Ladder(rungs) => {
            lemma_curry_seq_len(rungs);
            assert forall|i: int| 0 <= i < spec_curry_seq(rungs).len() implies
                (#[trigger] spec_curry_seq(rungs)[i] matches TermV::Spec(a) ==> a.len() <= 2) by {
                lemma_curry_seq_index(rungs, i);
                match rungs[i] {
                    TermV::Spec(a) => lemma_curry_args_len(a),
                    _ => {},
                }
            }
        },
        _ => {},
    }
}

} // verus!
