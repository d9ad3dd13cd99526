//! Ladder-normal form of desugared terms: every ladder lifted out of the applications.
//!
//! `<Seq <Digit 10>~Char>` becomes `<Seq <Digit 10>> ~ <Seq Char>`.

use vstd::prelude::*;
use crate::desugared::{
    copy_dterms, dterm_view, dterms_view, lemma_dterms_view, lemma_dterms_view_push, lemma_dview_variant,
    spec_d_unit, DTermV, DesugaredTypeTerm,
};

verus! {

//------------------------------------------------------------------
// Specification
//------------------------------------------------------------------

/// Whether `t` contains no ladder.
pub open spec fn spec_d_is_flat(t: DTermV) -> bool
    decreases t,
{
    match t {
        DTermV::App(args) => spec_d_all_flat(args),
        DTermV::Ladder(_) => false,
        _ => true,
    }
}

/// Whether every term of `s` is flat.
pub open spec fn spec_d_all_flat(s: Seq<DTermV>) -> bool
    decreases s,
{
    if s.len() == 0 {
        true
    } else {
        spec_d_all_flat(s.subrange(0, s.len() - 1)) && spec_d_is_flat(s[s.len() - 1])
    }
}

/// A list of rungs as one term: no rung gives the unit, one rung is that rung, more
/// rungs form a ladder.
pub open spec fn spec_d_ladder_of(rs: Seq<DTermV>) -> DTermV {
    if rs.len() == 0 {
        spec_d_unit()
    } else if rs.len() == 1 {
        rs[0]
    } else {
        DTermV::Ladder(rs)
    }
}

/// The ladder-normal form of `t`; `None` where an application has an argument whose
/// normal form is the empty ladder, on which the normalisation fails.
pub open spec fn spec_lnf(t: DTermV) -> Option<DTermV>
    decreases t,
{
    match t {
        DTermV::Ladder(args) => match spec_lnf_seq(args) {
            Some(rs) => Some(spec_d_ladder_of(rs)),
            None => None,
        },
        DTermV::App(args) => match spec_lnf_app(args) {
            Some(rows) => Some(spec_d_ladder_of(spec_apps(rows))),
            None => None,
        },
        _ => Some(t),
    }
}

/// The normal form of each term.
pub open spec fn spec_lnf_seq(s: Seq<DTermV>) -> Option<Seq<DTermV>>
    decreases s,
{
    if s.len() == 0 {
        Some(Seq::empty())
    } else {
        match (spec_lnf_seq(s.subrange(0, s.len() - 1)), spec_lnf(s[s.len() - 1])) {
            (Some(p), Some(x)) => Some(p.push(x)),
            _ => None,
        }
    }
}

/// The argument lists of the rungs of an application with arguments `s`, in order.
pub open spec fn spec_lnf_app(s: Seq<DTermV>) -> Option<Seq<Seq<DTermV>>>
    decreases s,
{
    if s.len() == 0 {
        Some(seq![Seq::<DTermV>::empty()])
    } else {
        match (spec_lnf_app(s.subrange(0, s.len() - 1)), spec_lnf(s[s.len() - 1])) {
            (Some(rows), Some(x)) => spec_lnf_extend(rows, x),
            _ => None,
        }
    }
}

/// The rows extended by one more argument in normal form `x`.  A ladder argument
/// `r0 ~ r1 ~ .. ~ rk` gives each existing row `r0`, and `k` copies of the last row
/// with `r1`, .., `rk`; any other argument is appended to every row.
pub open spec fn spec_lnf_extend(rows: Seq<Seq<DTermV>>, x: DTermV) -> Option<Seq<Seq<DTermV>>> {
    match x {
        DTermV::Ladder(rungs) => if rungs.len() == 0 {
            None
        } else {
            Some(spec_extend_ladder(rows, rungs))
        },
        _ => Some(Seq::new(rows.len(), |i: int| rows[i].push(x))),
    }
}

/// Rows extended by the rungs of a nonempty ladder argument.
pub open spec fn spec_extend_ladder(rows: Seq<Seq<DTermV>>, rungs: Seq<DTermV>) -> Seq<Seq<DTermV>> {
    let l = rows.len() as int;
    Seq::new(
        (l + rungs.len() - 1) as nat,
        |i: int| if i < l { rows[i].push(rungs[0]) } else { rows[l - 1].push(rungs[i - l + 1]) },
    )
}

/// Each argument list as an application.
pub open spec fn spec_apps(rows: Seq<Seq<DTermV>>) -> Seq<DTermV> {
    Seq::new(rows.len(), |i: int| DTermV::App(rows[i]))
}

/// The rungs of the normal form of `t`: those of a ladder, or the normal form itself as
/// the one rung of a type without ladders.
pub open spec fn spec_lnf_rungs(t: DTermV) -> Seq<DTermV> {
    match spec_lnf(t) {
        Some(DTermV::Ladder(v)) => v,
        Some(x) => seq![x],
        None => Seq::empty(),
    }
}

//------------------------------------------------------------------
// Lemmas
//------------------------------------------------------------------

proof fn lemma_lnf_seq_prefix_none(s: Seq<DTermV>, k: int)
    requires
        0 <= k <= s.len(),
        spec_lnf_seq(s.subrange(0, k)) is None,
    ensures
        spec_lnf_seq(s) is None,
    decreases s.len(),
{
    if k < s.len() {
        let p = s.subrange(0, s.len() - 1);
        assert(p.subrange(0, k) =~= s.subrange(0, k));
        lemma_lnf_seq_prefix_none(p, k);
    } else {
        assert(s.subrange(0, k) =~= s);
    }
}

proof fn lemma_lnf_app_prefix_none(s: Seq<DTermV>, k: int)
    requires
        0 <= k <= s.len(),
        spec_lnf_app(s.subrange(0, k)) is None,
    ensures
        spec_lnf_app(s) is None,
    decreases s.len(),
{
    if k < s.len() {
        let p = s.subrange(0, s.len() - 1);
        assert(p.subrange(0, k) =~= s.subrange(0, k));
        lemma_lnf_app_prefix_none(p, k);
    } else {
        assert(s.subrange(0, k) =~= s);
    }
}

/// The normal forms of a sequence are those of its terms, one by one.
pub proof fn lemma_lnf_seq_elems(s: Seq<DTermV>)
    requires
        spec_lnf_seq(s) is Some,
    ensures
        spec_lnf_seq(s)->0.len() == s.len(),
        forall|i: int| 0 <= i < s.len() ==> spec_lnf(#[trigger] s[i]) == Some(spec_lnf_seq(s)->0[i]),
    decreases s.len(),
{
    if s.len() > 0 {
        let p = s.subrange(0, s.len() - 1);
        lemma_lnf_seq_elems(p);
        assert forall|i: int| 0 <= i < s.len() implies spec_lnf(#[trigger] s[i]) == Some(spec_lnf_seq(s)->0[i]) by {
            if i < s.len() - 1 {
                assert(p[i] == s[i]);
            }
        }
    }
}

/// No normal form is a ladder of a single rung.
proof fn lemma_lnf_not_single(t: DTermV)
    requires
        spec_lnf(t) is Some,
    ensures
        spec_lnf(t)->0 matches DTermV::Ladder(v) ==> v.len() != 1,
    decreases t,
{
    match t {
        DTermV::Ladder(args) => {
            let rs = spec_lnf_seq(args)->0;
            if rs.len() == 1 {
                lemma_lnf_seq_elems(args);
                assert(spec_lnf(args[0]) == Some(rs[0]));
                lemma_lnf_not_single(args[0]);
            }
        },
        _ => {},
    }
}

/// An application has one rung exactly where no argument has a ladder as normal form;
/// that rung holds the normal forms of the arguments.
proof fn lemma_lnf_app_rows(s: Seq<DTermV>)
    requires
        spec_lnf_app(s) is Some,
    ensures
        spec_lnf_app(s)->0.len() >= 1,
        spec_lnf_app(s)->0.len() == 1 ==> {
            &&& spec_lnf_seq(s) == Some(spec_lnf_app(s)->0[0])
            &&& spec_lnf_app(s)->0[0].len() == s.len()
            &&& forall|i: int| 0 <= i < s.len() ==> !(#[trigger] spec_lnf_app(s)->0[0][i] is Ladder)
        },
    decreases s.len(),
{
    if s.len() > 0 {
        let p = s.subrange(0, s.len() - 1);
        lemma_lnf_app_rows(p);
        let rows = spec_lnf_app(p)->0;
        let x = spec_lnf(s[s.len() - 1])->0;
        lemma_lnf_not_single(s[s.len() - 1]);
        let out = spec_lnf_app(s)->0;
        match x {
            DTermV::Ladder(rungs) => {
                assert(out.len() == rows.len() + rungs.len() - 1);
            },
            _ => {
                assert(out.len() == rows.len());
                if out.len() == 1 {
                    assert(out[0] == rows[0].push(x));
                    assert forall|i: int| 0 <= i < s.len() implies !(#[trigger] out[0][i] is Ladder) by {
                        if i < s.len() - 1 {
                            assert(out[0][i] == rows[0][i]);
                        }
                    }
                }
            },
        }
    } else {
        assert(spec_lnf_seq(s) == Some(Seq::<DTermV>::empty()));
    }
}

/// Arguments that are their own normal forms, none a ladder, give one rung: the
/// arguments themselves.
proof fn lemma_lnf_app_fixed(q: Seq<DTermV>)
    requires
        forall|i: int| 0 <= i < q.len() ==> spec_lnf(#[trigger] q[i]) == Some(q[i]) && !(q[i] is Ladder),
    ensures
        spec_lnf_app(q) == Some(seq![q]),
    decreases q.len(),
{
    if q.len() == 0 {
        assert(q =~= Seq::<DTermV>::empty());
    } else {
        let p = q.subrange(0, q.len() - 1);
        assert forall|i: int| 0 <= i < p.len() implies spec_lnf(#[trigger] p[i]) == Some(p[i]) && !(p[i] is Ladder) by {
            assert(p[i] == q[i]);
        }
        lemma_lnf_app_fixed(p);
        let x = q[q.len() - 1];
        assert(spec_lnf(x) == Some(x));
        assert(p.push(x) =~= q);
        assert(spec_lnf_extend(seq![p], x) == Some(seq![q])) by {
            assert(Seq::new(1, |i: int| seq![p][i].push(x)) =~= seq![q]);
        }
    }
}

/// A flat term is in ladder-normal form.
pub proof fn law_flat_is_normal(t: DTermV)
    requires
        spec_d_is_flat(t),
    ensures
        spec_lnf(t) == Some(t),
    decreases t,
{
    match t {
        DTermV::App(args) => {
            lemma_all_flat_elems(args);
            assert forall|i: int| 0 <= i < args.len() implies spec_lnf(#[trigger] args[i]) == Some(args[i]) && !(args[i] is Ladder) by {
                law_flat_is_normal(args[i]);
            }
            lemma_lnf_app_fixed(args);
            assert(spec_apps(seq![args]) =~= seq![DTermV::App(args)]);
        },
        _ => {},
    }
}

proof fn lemma_all_flat_elems(s: Seq<DTermV>)
    requires
        spec_d_all_flat(s),
    ensures
        forall|i: int| 0 <= i < s.len() ==> spec_d_is_flat(#[trigger] s[i]),
    decreases s.len(),
{
    if s.len() > 0 {
        let p = s.subrange(0, s.len() - 1);
        lemma_all_flat_elems(p);
        assert forall|i: int| 0 <= i < s.len() implies spec_d_is_flat(#[trigger] s[i]) by {
            if i < s.len() - 1 {
                assert(p[i] == s[i]);
            }
        }
    }
}

/// A normal form that is not a ladder is its own normal form.
pub proof fn law_lnf_fixes_non_ladder(t: DTermV)
    requires
        spec_lnf(t) is Some,
        !(spec_lnf(t)->0 is Ladder),
    ensures
        spec_lnf(spec_lnf(t)->0) == spec_lnf(t),
    decreases t,
{
    match t {
        DTermV::Ladder(args) => {
            let rs = spec_lnf_seq(args)->0;
            lemma_lnf_seq_elems(args);
            assert(rs.len() == 1);
            law_lnf_fixes_non_ladder(args[0]);
        },
        DTermV::App(args) => {
            lemma_lnf_app_rows(args);
            let rows = spec_lnf_app(args)->0;
            assert(rows.len() == 1);
            let q = rows[0];
            lemma_lnf_seq_elems(args);
            assert forall|i: int| 0 <= i < q.len() implies spec_lnf(#[trigger] q[i]) == Some(q[i]) && !(q[i] is Ladder) by {
                assert(spec_lnf(args[i]) == Some(q[i]));
                assert(!(q[i] is Ladder));
                law_lnf_fixes_non_ladder(args[i]);
            }
            lemma_lnf_app_fixed(q);
            assert(spec_apps(seq![q]) =~= seq![DTermV::App(q)]);
            assert(spec_apps(rows) =~= seq![DTermV::App(q)]);
        },
        _ => {},
    }
}

//------------------------------------------------------------------
// Rows of argument lists
//------------------------------------------------------------------

/// Model of a vector of argument lists.
pub open spec fn rows_view(rows: Seq<Vec<DesugaredTypeTerm>>) -> Seq<Seq<DTermV>> {
    Seq::new(rows.len(), |i: int| dterms_view(rows[i]@))
}

/// A copy of `row` with `x` appended.
fn row_push(row: &Vec<DesugaredTypeTerm>, x: &DesugaredTypeTerm) -> (r: Vec<DesugaredTypeTerm>)
    ensures
        dterms_view(r@) == dterms_view(row@).push(x@),
{
    let mut r = copy_dterms(row);
    let y = x.copy();
    proof { lemma_dterms_view_push(r@, y); }
    r.push(y);
    r
}

/// The rows extended by one argument in normal form `x`; `None` where `x` is the
/// empty ladder.  A normal form that is no ladder is its own normal form
/// (`law_lnf_fixes_non_ladder`), so such an argument is appended as it is.
fn lnf_extend(rows: &Vec<Vec<DesugaredTypeTerm>>, x: &DesugaredTypeTerm) -> (r: Option<Vec<Vec<DesugaredTypeTerm>>>)
    requires
        rows.len() > 0,
    ensures
        match r {
            Some(v) => spec_lnf_extend(rows_view(rows@), x@) == Some(rows_view(v@)) && v.len() > 0,
            None => spec_lnf_extend(rows_view(rows@), x@) is None,
        },
{
    let ghost rv = rows_view(rows@);
    proof { lemma_dview_variant(x); }
    match x {
        DesugaredTypeTerm::Ladder(rungs) => {
            let ghost ru = dterms_view(rungs@);
            proof { lemma_dterms_view(rungs@); }
            if rungs.len() == 0 {
                return None;
            }
            let l = rows.len();
            let ghost expect = spec_extend_ladder(rv, ru);
            let mut out: Vec<Vec<DesugaredTypeTerm>> = Vec::new();
            let mut i: usize = 0;
            while i < l
                invariant
                    i <= l,
                    l == rows.len(),
                    rv == rows_view(rows@),
                    ru == dterms_view(rungs@),
                    ru.len() == rungs.len(),
                    rungs.len() > 0,
                    forall|j: int| 0 <= j < rungs.len() ==> #[trigger] ru[j] == dterm_view(rungs@[j]),
                    expect == spec_extend_ladder(rv, ru),
                    out.len() == i,
                    forall|j: int| 0 <= j < i ==> #[trigger] dterms_view(out@[j]@) == expect[j],
                decreases l - i,
            {
                let row = row_push(&rows[i], &rungs[0]);
                out.push(row);
                i += 1;
            }
            let mut k: usize = 1;
            while k < rungs.len()
                invariant
                    1 <= k <= rungs.len(),
                    l == rows.len(),
                    l > 0,
                    rv == rows_view(rows@),
                    ru == dterms_view(rungs@),
                    ru.len() == rungs.len(),
                    forall|j: int| 0 <= j < rungs.len() ==> #[trigger] ru[j] == dterm_view(rungs@[j]),
                    expect == spec_extend_ladder(rv, ru),
                    out.len() == l + k - 1,
                    forall|j: int| 0 <= j < out.len() ==> #[trigger] dterms_view(out@[j]@) == expect[j],
                decreases rungs.len() - k,
            {
                let row = row_push(&rows[l - 1], &rungs[k]);
                out.push(row);
                k += 1;
            }
            assert(rows_view(out@) =~= expect);
            Some(out)
        },
        _ => {
            let mut out: Vec<Vec<DesugaredTypeTerm>> = Vec::new();
            let mut i: usize = 0;
            while i < rows.len()
                invariant
                    i <= rows.len(),
                    rv == rows_view(rows@),
                    !(x@ is Ladder),
                    out.len() == i,
                    forall|j: int| 0 <= j < i ==> #[trigger] dterms_view(out@[j]@) == rv[j].push(x@),
                decreases rows.len() - i,
            {
                let row = row_push(&rows[i], x);
                out.push(row);
                i += 1;
            }
            assert(rows_view(out@) =~= Seq::new(rv.len(), |j: int| rv[j].push(x@)));
            Some(out)
        },
    }
}

/// The argument lists of the rungs of an application with arguments `args`.
fn lnf_app(args: &Vec<DesugaredTypeTerm>) -> (r: Option<Vec<Vec<DesugaredTypeTerm>>>)
    ensures
        match r {
            Some(v) => spec_lnf_app(dterms_view(args@)) == Some(rows_view(v@)) && v.len() > 0,
            None => spec_lnf_app(dterms_view(args@)) is None,
        },
    decreases args,
{
    let ghost sv = dterms_view(args@);
    proof { lemma_dterms_view(args@); }
    let mut rows: Vec<Vec<DesugaredTypeTerm>> = Vec::new();
    rows.push(Vec::new());
    assert(rows_view(rows@) =~= seq![Seq::<DTermV>::empty()]) by {
        assert(dterms_view(rows@[0]@) =~= Seq::<DTermV>::empty());
    }
    assert(sv.subrange(0, 0) =~= Seq::<DTermV>::empty());
    let mut i: usize = 0;
    while i < args.len()
        invariant
            i <= args.len(),
            sv == dterms_view(args@),
            sv.len() == args.len(),
            forall|j: int| 0 <= j < args.len() ==> #[trigger] sv[j] == dterm_view(args@[j]),
            rows.len() > 0,
            spec_lnf_app(sv.subrange(0, i as int)) == Some(rows_view(rows@)),
        decreases args.len() - i,
    {
        proof {
            assert(sv.subrange(0, i + 1).subrange(0, i as int) =~= sv.subrange(0, i as int));
            assert(sv.subrange(0, i + 1)[i as int] == sv[i as int]);
        }
        let x = match args[i].try_normalize() {
            Some(x) => x,
            None => {
                proof { lemma_lnf_app_prefix_none(sv, i + 1); }
                return None;
            },
        };
        match lnf_extend(&rows, &x) {
            Some(nr) => {
                rows = nr;
            },
            None => {
                proof { lemma_lnf_app_prefix_none(sv, i + 1); }
                return None;
            },
        }
        i += 1;
    }
    assert(sv.subrange(0, args.len() as int) =~= sv);
    Some(rows)
}

/// The normal form of each term.
fn lnf_seq(args: &Vec<DesugaredTypeTerm>) -> (r: Option<Vec<DesugaredTypeTerm>>)
    ensures
        match r {
            Some(v) => spec_lnf_seq(dterms_view(args@)) == Some(dterms_view(v@)),
            None => spec_lnf_seq(dterms_view(args@)) is None,
        },
    decreases args,
{
    let ghost sv = dterms_view(args@);
    proof { lemma_dterms_view(args@); }
    let mut out: Vec<DesugaredTypeTerm> = Vec::new();
    assert(sv.subrange(0, 0) =~= Seq::<DTermV>::empty());
    assert(dterms_view(out@) =~= Seq::<DTermV>::empty());
    let mut i: usize = 0;
    while i < args.len()
        invariant
            i <= args.len(),
            sv == dterms_view(args@),
            sv.len() == args.len(),
            forall|j: int| 0 <= j < args.len() ==> #[trigger] sv[j] == dterm_view(args@[j]),
            spec_lnf_seq(sv.subrange(0, i as int)) == Some(dterms_view(out@)),
        decreases args.len() - i,
    {
        proof {
            assert(sv.subrange(0, i + 1).subrange(0, i as int) =~= sv.subrange(0, i as int));
            assert(sv.subrange(0, i + 1)[i as int] == sv[i as int]);
        }
        match args[i].try_normalize() {
            Some(x) => {
                proof { lemma_dterms_view_push(out@, x); }
                out.push(x);
            },
            None => {
                proof { lemma_lnf_seq_prefix_none(sv, i + 1); }
                return None;
            },
        }
        i += 1;
    }
    assert(sv.subrange(0, args.len() as int) =~= sv);
    Some(out)
}

/// The rungs as one term: the unit for none, the rung itself for one, else a ladder.
fn ladder_of(rs: Vec<DesugaredTypeTerm>) -> (r: DesugaredTypeTerm)
    ensures
        r@ == spec_d_ladder_of(dterms_view(rs@)),
{
    proof { lemma_dterms_view(rs@); }
    if rs.len() == 1 {
        rs[0].copy()
    } else {
        DesugaredTypeTerm::Ladder(rs)
    }
}

/// Each argument list as an application.
fn apps_of(rows: Vec<Vec<DesugaredTypeTerm>>) -> (r: Vec<DesugaredTypeTerm>)
    ensures
        dterms_view(r@) == spec_apps(rows_view(rows@)),
{
    let ghost rv = rows_view(rows@);
    let mut out: Vec<DesugaredTypeTerm> = Vec::new();
    let mut i: usize = 0;
    while i < rows.len()
        invariant
            i <= rows.len(),
            rv == rows_view(rows@),
            dterms_view(out@) == spec_apps(rv).subrange(0, i as int),
        decreases rows.len() - i,
    {
        let t = DesugaredTypeTerm::App(copy_dterms(&rows[i]));
        proof {
            lemma_dterms_view_push(out@, t);
            assert(spec_apps(rv).subrange(0, i + 1) =~= spec_apps(rv).subrange(0, i as int).push(t@));
        }
        out.push(t);
        i += 1;
    }
    assert(spec_apps(rv).subrange(0, rows.len() as int) =~= spec_apps(rv));
    out
}

/// Whether every term is flat.
fn all_flat(args: &Vec<DesugaredTypeTerm>) -> (r: bool)
    ensures
        r == spec_d_all_flat(dterms_view(args@)),
    decreases args,
{
    let ghost sv = dterms_view(args@);
    proof { lemma_dterms_view(args@); }
    let mut ok = true;
    let mut i: usize = 0;
    assert(sv.subrange(0, 0) =~= Seq::<DTermV>::empty());
    while i < args.len()
        invariant
            i <= args.len(),
            sv == dterms_view(args@),
            sv.len() == args.len(),
            forall|j: int| 0 <= j < args.len() ==> #[trigger] sv[j] == dterm_view(args@[j]),
            ok == spec_d_all_flat(sv.subrange(0, i as int)),
        decreases args.len() - i,
    {
        proof {
            assert(sv.subrange(0, i + 1).subrange(0, i as int) =~= sv.subrange(0, i as int));
            assert(sv.subrange(0, i + 1)[i as int] == sv[i as int]);
        }
        let f = args[i].is_flat();
        ok = ok && f;
        i += 1;
    }
    assert(sv.subrange(0, args.len() as int) =~= sv);
    ok
}

impl DesugaredTypeTerm {
    /// Whether the term contains no ladder: `<Seq <Digit 10>>` is flat,
    /// `<Digit 10>~Char` is not.
    pub fn is_flat(&self) -> (r: bool)
        ensures
            r == spec_d_is_flat(self@),
        decreases self,
    {
        match self {
            DesugaredTypeTerm::App(args) => all_flat(args),
            DesugaredTypeTerm::Ladder(_) => false,
            _ => true,
        }
    }

    /// The ladder-normal form, or `None` where an application has an argument whose
    /// normal form is the empty ladder.
    pub fn try_normalize(&self) -> (r: Option<DesugaredTypeTerm>)
        ensures
            match r {
                Some(t) => spec_lnf(self@) == Some(t@),
                None => spec_lnf(self@) is None,
            },
        decreases self,
    {
        proof { lemma_dview_variant(self); }
        match self {
            DesugaredTypeTerm::Ladder(args) => match lnf_seq(args) {
                Some(rs) => Some(ladder_of(rs)),
                None => None,
            },
            DesugaredTypeTerm::App(args) => match lnf_app(args) {
                Some(rows) => Some(ladder_of(apps_of(rows))),
                None => None,
            },
            _ => Some(self.copy()),
        }
    }

    /// The ladder-normal form: `<Seq <Digit 10>~Char>` becomes
    /// `<Seq <Digit 10>> ~ <Seq Char>`.
    pub fn normalize(self) -> (r: DesugaredTypeTerm)
        requires
            spec_lnf(self@) is Some,
        ensures
            spec_lnf(self@) == Some(r@),
    {
        match self.try_normalize() {
            Some(t) => t,
            None => self,
        }
    }

    /// All rungs of the ladder-normal form: `<Seq <Digit 10>~Char>` gives
    /// `[<Seq <Digit 10>>, <Seq Char>]`, and a type without ladders is its one rung.
    pub fn get_lnf_vec(self) -> (r: Vec<DesugaredTypeTerm>)
        requires
            spec_lnf(self@) is Some,
        ensures
            dterms_view(r@) == spec_lnf_rungs(self@),
    {
        match self.try_normalize() {
            Some(DesugaredTypeTerm::Ladder(v)) => v,
            Some(t) => {
                proof {
                    lemma_dview_variant(&t);
                    crate::desugared::lemma_dterms_view_push(Seq::empty(), t);
                    assert(dterms_view(Seq::<DesugaredTypeTerm>::empty()) =~= Seq::<DTermV>::empty());
                }
                let mut v: Vec<DesugaredTypeTerm> = Vec::new();
                v.push(t);
                assert(v@ =~= Seq::<DesugaredTypeTerm>::empty().push(t));
                v
            },
            None => Vec::new(),
        }
    }
}

//------------------------------------------------------------------
// Law: the rungs of the normal form of an application
//------------------------------------------------------------------

/// The rows of an application with arguments `s`: at least one row, each with one entry
/// per argument, entry `i` a rung of the normal form of argument `i`; the first row takes
/// the top rung of every argument, the last row the bottom rung.
pub open spec fn spec_rows_shape(s: Seq<DTermV>, rows: Seq<Seq<DTermV>>) -> bool {
    &&& rows.len() >= 1
    &&& forall|k: int| 0 <= k < rows.len() ==> (#[trigger] rows[k]).len() == s.len()
    &&& rows[0] == Seq::new(s.len(), |i: int| spec_lnf_rungs(s[i])[0])
    &&& rows.last() == Seq::new(s.len(), |i: int| spec_lnf_rungs(s[i]).last())
    &&& forall|k: int, i: int| 0 <= k < rows.len() && 0 <= i < s.len()
        ==> spec_lnf_rungs(s[i]).contains(#[trigger] rows[k][i])
}

proof fn lemma_lnf_app_shape(s: Seq<DTermV>)
    requires
        spec_lnf_app(s) is Some,
    ensures
        spec_rows_shape(s, spec_lnf_app(s)->0),
    decreases s.len(),
{
    let rows = spec_lnf_app(s)->0;
    if s.len() == 0 {
        assert(rows[0] =~= Seq::new(0, |i: int| spec_lnf_rungs(s[i])[0]));
        assert(rows.last() =~= Seq::new(0, |i: int| spec_lnf_rungs(s[i]).last()));
    } else {
        let n = s.len() - 1;
        let p = s.subrange(0, n);
        let last = s[n];
        lemma_lnf_app_shape(p);
        let rp = spec_lnf_app(p)->0;
        let l = rp.len() as int;
        let x = spec_lnf(last)->0;
        assert(spec_lnf(last) == Some(x));
        assert forall|i: int| 0 <= i < n implies #[trigger] s[i] == p[i] by {}
        match x {
            DTermV::Ladder(rungs) => {
                assert(rungs.len() > 0);
                assert(spec_lnf_rungs(last) == rungs);
                assert(rows == spec_extend_ladder(rp, rungs));
                assert(rows.len() == l + rungs.len() - 1);
                assert forall|k: int| 0 <= k < rows.len() implies (#[trigger] rows[k]).len() == s.len() by {
                    if k < l {
                        assert(rows[k] == rp[k].push(rungs[0]));
                    } else {
                        assert(rows[k] == rp[l - 1].push(rungs[k - l + 1]));
                    }
                }
                assert(rows[0] == rp[0].push(rungs[0]));
                assert(rows[0] =~= Seq::new(s.len(), |i: int| spec_lnf_rungs(s[i])[0]));
                if rungs.len() == 1 {
                    assert(rows.last() == rp[l - 1].push(rungs[0]));
                } else {
                    assert(rows.last() == rp[l - 1].push(rungs[rungs.len() - 1]));
                }
                assert(rows.last() =~= Seq::new(s.len(), |i: int| spec_lnf_rungs(s[i]).last()));
                assert forall|k: int, i: int| 0 <= k < rows.len() && 0 <= i < s.len()
                    implies spec_lnf_rungs(s[i]).contains(#[trigger] rows[k][i]) by {
                    let kk = if k < l { k } else { l - 1 };
                    let j = if k < l { 0 } else { k - l + 1 };
                    assert(rows[k] == rp[kk].push(rungs[j]));
                    if i < n {
                        assert(rows[k][i] == rp[kk][i]);
                        assert(spec_lnf_rungs(p[i]).contains(rp[kk][i]));
                    } else {
                        assert(rows[k][i] == rungs[j]);
                        assert(spec_lnf_rungs(s[i])[j] == rows[k][i]);
                    }
                }
            },
            _ => {
                assert(spec_lnf_rungs(last) == seq![x]);
                assert(rows == Seq::new(rp.len(), |k: int| rp[k].push(x)));
                assert forall|k: int| 0 <= k < rows.len() implies (#[trigger] rows[k]).len() == s.len() by {
                    assert(rows[k] == rp[k].push(x));
                }
                assert(rows[0] == rp[0].push(x));
                assert(rows[0] =~= Seq::new(s.len(), |i: int| spec_lnf_rungs(s[i])[0]));
                assert(rows.last() == rp[l - 1].push(x));
                assert(rows.last() =~= Seq::new(s.len(), |i: int| spec_lnf_rungs(s[i]).last()));
                assert forall|k: int, i: int| 0 <= k < rows.len() && 0 <= i < s.len()
                    implies spec_lnf_rungs(s[i]).contains(#[trigger] rows[k][i]) by {
                    assert(rows[k] == rp[k].push(x));
                    if i < n {
                        assert(rows[k][i] == rp[k][i]);
                        assert(spec_lnf_rungs(p[i]).contains(rp[k][i]));
                    } else {
                        assert(spec_lnf_rungs(s[i])[0] == rows[k][i]);
                    }
                }
            },
        }
    }
}

/// Each rung of the ladder-normal form of an application `<a0 a1 .. an>` is an
/// application of as many arguments, its `i`-th argument a rung of the normal form of
/// `ai`.  The top rung takes the top rung of every argument and the bottom rung the bottom
/// rung of every argument: `<M A~B C>` gives `<M A C>` above `<M B C>`.
pub proof fn law_lnf_application_rungs(args: Seq<DTermV>)
    requires
        spec_lnf(DTermV::App(args)) is Some,
    ensures
        spec_lnf_rungs(DTermV::App(args)).len() >= 1,
        spec_lnf_rungs(DTermV::App(args))[0] == DTermV::App(Seq::new(args.len(), |i: int| spec_lnf_rungs(args[i])[0])),
        spec_lnf_rungs(DTermV::App(args)).last() == DTermV::App(Seq::new(args.len(), |i: int| spec_lnf_rungs(args[i]).last())),
        forall|k: int| 0 <= k < spec_lnf_rungs(DTermV::App(args)).len() ==> {
            &&& (#[trigger] spec_lnf_rungs(DTermV::App(args))[k]) matches DTermV::App(row)
            &&& row.len() == args.len()
            &&& forall|i: int| 0 <= i < args.len() ==> spec_lnf_rungs(args[i]).contains(#[trigger] row[i])
        },
{
    let rows = spec_lnf_app(args)->0;
    lemma_lnf_app_shape(args);
    let rs = spec_lnf_rungs(DTermV::App(args));
    assert(rs =~= spec_apps(rows));
    assert forall|k: int| 0 <= k < rs.len() implies {
        &&& (#[trigger] rs[k]) matches DTermV::App(row)
        &&& row.len() == args.len()
        &&& forall|i: int| 0 <= i < args.len() ==> spec_lnf_rungs(args[i]).contains(#[trigger] row[i])
    } by {
        assert(rs[k] == DTermV::App(rows[k]));
        assert(rows[k].len() == args.len());
        assert forall|i: int| 0 <= i < args.len() implies spec_lnf_rungs(args[i]).contains(#[trigger] rows[k][i]) by {}
    }
}

/// The ladder-normal form of a ladder of at least two rungs is the ladder of the normal
/// forms of its rungs, in the same order.
pub proof fn law_lnf_ladder_rungs(args: Seq<DTermV>)
    requires
        args.len() >= 2,
        spec_lnf(DTermV::Ladder(args)) is Some,
    ensures
        spec_lnf(DTermV::Ladder(args)) == Some(DTermV::Ladder(Seq::new(args.len(), |i: int| spec_lnf(args[i])->0))),
        forall|i: int| 0 <= i < args.len() ==> spec_lnf(#[trigger] args[i]) is Some,
{
    lemma_lnf_seq_elems(args);
    let rs = spec_lnf_seq(args)->0;
    assert(rs =~= Seq::new(args.len(), |i: int| spec_lnf(args[i])->0));
}

} // verus!
