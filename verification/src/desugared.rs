//! Desugared type terms: type identifiers, literals, applications and ladders only.

use vstd::prelude::*;
use crate::dict::TypeID;

verus! {

/// A type term without syntactic sugar.
#[derive(PartialEq, Eq, Hash, Debug)]
pub enum DesugaredTypeTerm {
    /// A base type from the dictionary.
    TypeID(TypeID),
    /// A number literal.
    Num(i64),
    /// A character literal.
    Char(char),
    /// A type application.
    App(Vec<DesugaredTypeTerm>),
    /// A type ladder.
    Ladder(Vec<DesugaredTypeTerm>),
}

/// Model of a desugared term.
pub enum DTermV {
    TypeID(TypeID),
    Num(i64),
    Char(char),
    App(Seq<DTermV>),
    Ladder(Seq<DTermV>),
}

pub open spec fn dterm_view(t: DesugaredTypeTerm) -> DTermV
    decreases t,
{
    match t {
        DesugaredTypeTerm::TypeID(id) => DTermV::TypeID(id),
        DesugaredTypeTerm::Num(n) => DTermV::Num(n),
        DesugaredTypeTerm::Char(c) => DTermV::Char(c),
        DesugaredTypeTerm::App(a) => DTermV::App(dterms_view(a@)),
        DesugaredTypeTerm::Ladder(a) => DTermV::Ladder(dterms_view(a@)),
    }
}

pub open spec fn dterms_view(s: Seq<DesugaredTypeTerm>) -> Seq<DTermV>
    decreases s,
{
    if s.len() == 0 {
        Seq::empty()
    } else {
        dterms_view(s.subrange(0, s.len() - 1)).push(dterm_view(s[s.len() - 1]))
    }
}

impl View for DesugaredTypeTerm {
    type V = DTermV;

    open spec fn view(&self) -> DTermV {
        dterm_view(*self)
    }
}

pub proof fn lemma_dterms_view(s: Seq<DesugaredTypeTerm>)
    ensures
        dterms_view(s).len() == s.len(),
        forall|i: int| 0 <= i < s.len() ==> #[trigger] dterms_view(s)[i] == dterm_view(s[i]),
    decreases s.len(),
{
    if s.len() > 0 {
        lemma_dterms_view(s.subrange(0, s.len() - 1));
    }
}

pub proof fn lemma_dterms_view_push(s: Seq<DesugaredTypeTerm>, t: DesugaredTypeTerm)
    ensures
        dterms_view(s.push(t)) == dterms_view(s).push(dterm_view(t)),
{
    assert(s.push(t).subrange(0, s.len() as int) =~= s);
}

pub proof fn lemma_dterms_view_ext(a: Seq<DesugaredTypeTerm>, b: Seq<DesugaredTypeTerm>)
    requires
        a.len() == b.len(),
        forall|i: int| 0 <= i < a.len() ==> dterm_view(#[trigger] a[i]) == dterm_view(b[i]),
    ensures
        dterms_view(a) == dterms_view(b),
{
    lemma_dterms_view(a);
    lemma_dterms_view(b);
    assert(dterms_view(a) =~= dterms_view(b));
}

/// The view of a term has the term's own variant.
pub proof fn lemma_dview_variant(t: &DesugaredTypeTerm)
    ensures
        (t@ is TypeID) == (*t is TypeID),
        (t@ is Num) == (*t is Num),
        (t@ is Char) == (*t is Char),
        (t@ is App) == (*t is App),
        (t@ is Ladder) == (*t is Ladder),
        *t matches DesugaredTypeTerm::TypeID(id) ==> t@ == DTermV::TypeID(id),
        *t matches DesugaredTypeTerm::Num(n) ==> t@ == DTermV::Num(n),
        *t matches DesugaredTypeTerm::Char(c) ==> t@ == DTermV::Char(c),
{
}

/// The unit type: the empty ladder.
pub open spec fn spec_d_unit() -> DTermV {
    DTermV::Ladder(Seq::empty())
}

/// `s` applied to one more argument `t`.
pub open spec fn spec_d_arg(s: DTermV, t: DTermV) -> DTermV {
    match s {
        DTermV::App(a) => DTermV::App(a.push(t)),
        _ => DTermV::App(seq![s, t]),
    }
}

/// `s` with one more rung `t` below.
pub open spec fn spec_d_repr_as(s: DTermV, t: DTermV) -> DTermV {
    match s {
        DTermV::Ladder(a) => DTermV::Ladder(a.push(t)),
        _ => DTermV::Ladder(seq![s, t]),
    }
}

/// Whether variable `v` occurs in `t`.
pub open spec fn spec_d_contains_var(t: DTermV, v: u64) -> bool
    decreases t,
{
    match t {
        DTermV::TypeID(TypeID::Var(x)) => x == v,
        DTermV::App(a) => spec_d_any_contains_var(a, v),
        DTermV::Ladder(a) => spec_d_any_contains_var(a, v),
        _ => false,
    }
}

/// Whether variable `v` occurs in one of the terms.
pub open spec fn spec_d_any_contains_var(s: Seq<DTermV>, v: u64) -> bool
    decreases s,
{
    if s.len() == 0 {
        false
    } else {
        spec_d_any_contains_var(s.subrange(0, s.len() - 1), v) || spec_d_contains_var(s[s.len() - 1], v)
    }
}

/// Empty ladders removed, nested ladders flattened, singletons unwrapped.
pub open spec fn spec_d_strip(t: DTermV) -> DTermV
    decreases t,
{
    match t {
        DTermV::Ladder(rungs) => {
            let rs = spec_d_strip_rungs(rungs);
            if rs.len() == 1 { rs[0] } else { DTermV::Ladder(rs) }
        },
        DTermV::App(args) => {
            let a = spec_d_strip_seq(args);
            if a.len() == 0 {
                spec_d_unit()
            } else if a.len() == 1 {
                a[0]
            } else {
                DTermV::App(a)
            }
        },
        _ => t,
    }
}

/// Each term stripped.
pub open spec fn spec_d_strip_seq(s: Seq<DTermV>) -> Seq<DTermV>
    decreases s,
{
    if s.len() == 0 {
        Seq::empty()
    } else {
        spec_d_strip_seq(s.subrange(0, s.len() - 1)).push(spec_d_strip(s[s.len() - 1]))
    }
}

/// The rungs stripped and flattened, with empty ones left out.
pub open spec fn spec_d_strip_rungs(s: Seq<DTermV>) -> Seq<DTermV>
    decreases s,
{
    if s.len() == 0 {
        Seq::empty()
    } else {
        let r = spec_d_strip(s[s.len() - 1]);
        spec_d_strip_rungs(s.subrange(0, s.len() - 1)) + if r == spec_d_unit() {
            Seq::empty()
        } else {
            match r {
                DTermV::Ladder(x) => x,
                _ => seq![r],
            }
        }
    }
}

/// The interface type: the top rung of each ladder.
pub open spec fn spec_d_interface(t: DTermV) -> DTermV
    decreases t,
{
    match t {
        DTermV::Ladder(rungs) => if rungs.len() > 0 { spec_d_interface(rungs[0]) } else { spec_d_unit() },
        DTermV::App(args) => DTermV::App(spec_d_interface_seq(args)),
        _ => t,
    }
}

pub open spec fn spec_d_interface_seq(s: Seq<DTermV>) -> Seq<DTermV>
    decreases s,
{
    if s.len() == 0 {
        Seq::empty()
    } else {
        spec_d_interface_seq(s.subrange(0, s.len() - 1)).push(spec_d_interface(s[s.len() - 1]))
    }
}

/// A copy of a vector of desugared terms.
pub fn copy_dterms(v: &Vec<DesugaredTypeTerm>) -> (r: Vec<DesugaredTypeTerm>)
    ensures
        dterms_view(r@) == dterms_view(v@),
    decreases v,
{
    let mut r: Vec<DesugaredTypeTerm> = Vec::new();
    let mut i: usize = 0;
    while i < v.len()
        invariant
            i <= v.len(),
            r.len() == i,
            forall|j: int| 0 <= j < i ==> dterm_view(#[trigger] r@[j]) == dterm_view(v@[j]),
        decreases v.len() - i,
    {
        let t = v[i].copy();
        r.push(t);
        i += 1;
    }
    proof { lemma_dterms_view_ext(r@, v@); }
    r
}

/// Whether two vectors of desugared terms have the same model.
pub fn same_dterms(a: &Vec<DesugaredTypeTerm>, b: &Vec<DesugaredTypeTerm>) -> (r: bool)
    ensures
        r == (dterms_view(a@) == dterms_view(b@)),
    decreases a,
{
    proof {
        lemma_dterms_view(a@);
        lemma_dterms_view(b@);
    }
    if a.len() != b.len() {
        return false;
    }
    let mut i: usize = 0;
    while i < a.len()
        invariant
            i <= a.len(),
            a.len() == b.len(),
            dterms_view(a@).len() == a.len(),
            dterms_view(b@).len() == b.len(),
            forall|j: int| 0 <= j < a.len() ==> #[trigger] dterms_view(a@)[j] == dterm_view(a@[j]),
            forall|j: int| 0 <= j < b.len() ==> #[trigger] dterms_view(b@)[j] == dterm_view(b@[j]),
            forall|j: int| 0 <= j < i ==> dterm_view(#[trigger] a@[j]) == dterm_view(b@[j]),
        decreases a.len() - i,
    {
        if !a[i].same(&b[i]) {
            assert(dterms_view(a@)[i as int] != dterms_view(b@)[i as int]);
            return false;
        }
        i += 1;
    }
    assert(dterms_view(a@) =~= dterms_view(b@));
    true
}

/// Whether variable `var_id` occurs in one of the terms.
fn any_dcontains_var(args: &Vec<DesugaredTypeTerm>, var_id: u64) -> (r: bool)
    ensures
        r == spec_d_any_contains_var(dterms_view(args@), var_id),
    decreases args,
{
    proof { lemma_dterms_view(args@); }
    let mut i: usize = 0;
    while i < args.len()
        invariant
            i <= args.len(),
            dterms_view(args@).len() == args.len(),
            forall|j: int| 0 <= j < args.len() ==> #[trigger] dterms_view(args@)[j] == dterm_view(args@[j]),
            forall|j: int| 0 <= j < i ==> !spec_d_contains_var(#[trigger] dterms_view(args@)[j], var_id),
        decreases args.len() - i,
    {
        if args[i].contains_var(var_id) {
            proof { lemma_any_contains_witness(dterms_view(args@), i as int, var_id); }
            return true;
        }
        i += 1;
    }
    proof { lemma_any_contains_none(dterms_view(args@), var_id); }
    false
}

proof fn lemma_any_contains_witness(s: Seq<DTermV>, i: int, v: u64)
    requires
        0 <= i < s.len(),
        spec_d_contains_var(s[i], v),
    ensures
        spec_d_any_contains_var(s, v),
    decreases s.len(),
{
    if i < s.len() - 1 {
        assert(s.subrange(0, s.len() - 1)[i] == s[i]);
        lemma_any_contains_witness(s.subrange(0, s.len() - 1), i, v);
    }
}

proof fn lemma_any_contains_none(s: Seq<DTermV>, v: u64)
    requires
        forall|j: int| 0 <= j < s.len() ==> !spec_d_contains_var(#[trigger] s[j], v),
    ensures
        !spec_d_any_contains_var(s, v),
    decreases s.len(),
{
    if s.len() > 0 {
        let p = s.subrange(0, s.len() - 1);
        assert forall|j: int| 0 <= j < p.len() implies !spec_d_contains_var(#[trigger] p[j], v) by {
            assert(p[j] == s[j]);
        }
        lemma_any_contains_none(p, v);
    }
}

impl DesugaredTypeTerm {
    /// A copy of this term.
    pub fn copy(&self) -> (r: DesugaredTypeTerm)
        ensures
            r@ == self@,
        decreases self,
    {
        match self {
            DesugaredTypeTerm::TypeID(id) => DesugaredTypeTerm::TypeID(*id),
            DesugaredTypeTerm::Num(n) => DesugaredTypeTerm::Num(*n),
            DesugaredTypeTerm::Char(c) => DesugaredTypeTerm::Char(*c),
            DesugaredTypeTerm::App(a) => DesugaredTypeTerm::App(copy_dterms(a)),
            DesugaredTypeTerm::Ladder(a) => DesugaredTypeTerm::Ladder(copy_dterms(a)),
        }
    }

    /// Whether two terms have the same model (structural equality).
    pub fn same(&self, other: &DesugaredTypeTerm) -> (r: bool)
        ensures
            r == (self@ == other@),
        decreases self,
    {
        match (self, other) {
            (DesugaredTypeTerm::TypeID(a), DesugaredTypeTerm::TypeID(b)) => *a == *b,
            (DesugaredTypeTerm::Num(a), DesugaredTypeTerm::Num(b)) => *a == *b,
            (DesugaredTypeTerm::Char(a), DesugaredTypeTerm::Char(b)) => *a == *b,
            (DesugaredTypeTerm::App(a), DesugaredTypeTerm::App(b)) => same_dterms(a, b),
            (DesugaredTypeTerm::Ladder(a), DesugaredTypeTerm::Ladder(b)) => same_dterms(a, b),
            _ => false,
        }
    }

    /// The unit type: the empty ladder.
    pub fn unit() -> (r: DesugaredTypeTerm)
        ensures
            r@ == spec_d_unit(),
    {
        let r = DesugaredTypeTerm::Ladder(Vec::new());
        assert(dterms_view(Seq::<DesugaredTypeTerm>::empty()) =~= Seq::<DTermV>::empty());
        r
    }

    /// The term for a type identifier.
    pub fn new(id: TypeID) -> (r: DesugaredTypeTerm)
        ensures
            r@ == DTermV::TypeID(id),
    {
        DesugaredTypeTerm::TypeID(id)
    }

    /// Applies this term to one more argument: an application gets `t` appended, any
    /// other term `s` becomes `<s t>`.
    pub fn arg(&mut self, t: DesugaredTypeTerm)
        ensures
            final(self)@ == spec_d_arg(old(self)@, t@),
    {
        let new_val = match self {
            DesugaredTypeTerm::App(args) => {
                let mut a = copy_dterms(args);
                proof { lemma_dterms_view_push(a@, t); }
                a.push(t);
                let r = DesugaredTypeTerm::App(a);
                assert(r@ == spec_d_arg(self@, t@));
                r
            },
            _ => {
                proof { lemma_dview_variant(self); }
                let mut v: Vec<DesugaredTypeTerm> = Vec::new();
                let s = self.copy();
                proof { lemma_dterms_view_push(v@, s); }
                v.push(s);
                proof { lemma_dterms_view_push(v@, t); }
                v.push(t);
                assert(dterms_view(Seq::<DesugaredTypeTerm>::empty()) =~= Seq::<DTermV>::empty());
                let r = DesugaredTypeTerm::App(v);
                assert(dterms_view(v@) =~= seq![self@, t@]);
                assert(r@ == spec_d_arg(self@, t@));
                r
            },
        };
        *self = new_val;
    }

    /// Adds a rung below this term: a ladder gets `t` appended, any other term `s`
    /// becomes `s ~ t`.
    pub fn repr_as(&mut self, t: DesugaredTypeTerm)
        ensures
            final(self)@ == spec_d_repr_as(old(self)@, t@),
    {
        let new_val = match self {
            DesugaredTypeTerm::Ladder(rungs) => {
                let mut a = copy_dterms(rungs);
                proof { lemma_dterms_view_push(a@, t); }
                a.push(t);
                DesugaredTypeTerm::Ladder(a)
            },
            _ => {
                proof { lemma_dview_variant(self); }
                let mut v: Vec<DesugaredTypeTerm> = Vec::new();
                let s = self.copy();
                proof { lemma_dterms_view_push(v@, s); }
                v.push(s);
                proof { lemma_dterms_view_push(v@, t); }
                v.push(t);
                assert(dterms_view(Seq::<DesugaredTypeTerm>::empty()) =~= Seq::<DTermV>::empty());
                assert(dterms_view(v@) =~= seq![self@, t@]);
                DesugaredTypeTerm::Ladder(v)
            },
        };
        *self = new_val;
    }

    /// Applies this term to a number literal.
    pub fn num_arg(&mut self, v: i64)
        ensures
            final(self)@ == spec_d_arg(old(self)@, DTermV::Num(v)),
    {
        self.arg(DesugaredTypeTerm::Num(v))
    }

    /// Applies this term to a character literal.
    pub fn char_arg(&mut self, c: char)
        ensures
            final(self)@ == spec_d_arg(old(self)@, DTermV::Char(c)),
    {
        self.arg(DesugaredTypeTerm::Char(c))
    }

    /// Whether variable `var_id` occurs in the term.
    pub fn contains_var(&self, var_id: u64) -> (r: bool)
        ensures
            r == spec_d_contains_var(self@, var_id),
        decreases self,
    {
        proof { lemma_dview_variant(self); }
        match self {
            DesugaredTypeTerm::TypeID(id) => match id {
                TypeID::Var(v) => {
                    assert(self@ == DTermV::TypeID(TypeID::Var(*v)));
                    assert(spec_d_contains_var(DTermV::TypeID(TypeID::Var(*v)), var_id) == (*v == var_id));
                    *v == var_id
                },
                TypeID::Fun(_) => false,
            },
            DesugaredTypeTerm::App(args) => any_dcontains_var(args, var_id),
            DesugaredTypeTerm::Ladder(args) => any_dcontains_var(args, var_id),
            _ => false,
        }
    }
}

/// Each term stripped.
fn d_strip_seq(v: &Vec<DesugaredTypeTerm>) -> (r: Vec<DesugaredTypeTerm>)
    ensures
        dterms_view(r@) == spec_d_strip_seq(dterms_view(v@)),
    decreases v,
{
    let ghost sv = dterms_view(v@);
    proof { lemma_dterms_view(v@); }
    let mut r: Vec<DesugaredTypeTerm> = Vec::new();
    let mut i: usize = 0;
    assert(dterms_view(r@) =~= spec_d_strip_seq(sv.subrange(0, 0)));
    while i < v.len()
        invariant
            i <= v.len(),
            sv == dterms_view(v@),
            sv.len() == v.len(),
            forall|j: int| 0 <= j < v.len() ==> #[trigger] sv[j] == dterm_view(v@[j]),
            dterms_view(r@) == spec_d_strip_seq(sv.subrange(0, i as int)),
        decreases v.len() - i,
    {
        let t = v[i].strip_ref();
        proof {
            lemma_dterms_view_push(r@, t);
            assert(sv.subrange(0, i + 1).subrange(0, i as int) =~= sv.subrange(0, i as int));
        }
        r.push(t);
        i += 1;
    }
    assert(sv.subrange(0, v.len() as int) =~= sv);
    r
}

/// The rungs stripped and flattened, with empty ones left out.
fn d_strip_rungs(v: &Vec<DesugaredTypeTerm>) -> (r: Vec<DesugaredTypeTerm>)
    ensures
        dterms_view(r@) == spec_d_strip_rungs(dterms_view(v@)),
    decreases v,
{
    let ghost sv = dterms_view(v@);
    proof { lemma_dterms_view(v@); }
    let mut r: Vec<DesugaredTypeTerm> = Vec::new();
    let mut i: usize = 0;
    assert(dterms_view(r@) =~= spec_d_strip_rungs(sv.subrange(0, 0)));
    while i < v.len()
        invariant
            i <= v.len(),
            sv == dterms_view(v@),
            sv.len() == v.len(),
            forall|j: int| 0 <= j < v.len() ==> #[trigger] sv[j] == dterm_view(v@[j]),
            dterms_view(r@) == spec_d_strip_rungs(sv.subrange(0, i as int)),
        decreases v.len() - i,
    {
        let t = v[i].strip_ref();
        let ghost r0 = dterms_view(r@);
        proof {
            assert(sv.subrange(0, i + 1).subrange(0, i as int) =~= sv.subrange(0, i as int));
            assert(sv.subrange(0, i + 1)[i as int] == sv[i as int]);
            lemma_dview_variant(&t);
        }
        if !t.same(&DesugaredTypeTerm::unit()) {
            match t {
                DesugaredTypeTerm::Ladder(x) => {
                    proof { lemma_dterms_view(x@); }
                    let mut k: usize = 0;
                    while k < x.len()
                        invariant
                            k <= x.len(),
                            dterms_view(x@).len() == x.len(),
                            forall|j: int| 0 <= j < x.len() ==> #[trigger] dterms_view(x@)[j] == dterm_view(x@[j]),
                            dterms_view(r@) == r0 + dterms_view(x@).subrange(0, k as int),
                        decreases x.len() - k,
                    {
                        let e = x[k].copy();
                        proof {
                            lemma_dterms_view_push(r@, e);
                            assert(dterms_view(x@).subrange(0, k + 1) =~= dterms_view(x@).subrange(0, k as int).push(dterms_view(x@)[k as int]));
                        }
                        r.push(e);
                        k += 1;
                    }
                    assert(dterms_view(x@).subrange(0, x.len() as int) =~= dterms_view(x@));
                },
                other => {
                    proof { lemma_dterms_view_push(r@, other); }
                    r.push(other);
                    assert(seq![dterm_view(other)] =~= seq![dterm_view(other)]);
                    assert(dterms_view(r@) =~= r0 + seq![dterm_view(other)]);
                },
            }
        } else {
            assert(r0 + Seq::<DTermV>::empty() =~= r0);
        }
        i += 1;
    }
    assert(sv.subrange(0, v.len() as int) =~= sv);
    r
}

/// The interface type of each term.
fn d_interface_seq(v: &Vec<DesugaredTypeTerm>) -> (r: Vec<DesugaredTypeTerm>)
    ensures
        dterms_view(r@) == spec_d_interface_seq(dterms_view(v@)),
    decreases v,
{
    let ghost sv = dterms_view(v@);
    proof { lemma_dterms_view(v@); }
    let mut r: Vec<DesugaredTypeTerm> = Vec::new();
    let mut i: usize = 0;
    assert(dterms_view(r@) =~= spec_d_interface_seq(sv.subrange(0, 0)));
    while i < v.len()
        invariant
            i <= v.len(),
            sv == dterms_view(v@),
            sv.len() == v.len(),
            forall|j: int| 0 <= j < v.len() ==> #[trigger] sv[j] == dterm_view(v@[j]),
            dterms_view(r@) == spec_d_interface_seq(sv.subrange(0, i as int)),
        decreases v.len() - i,
    {
        let t = v[i].get_interface_type();
        proof {
            lemma_dterms_view_push(r@, t);
            assert(sv.subrange(0, i + 1).subrange(0, i as int) =~= sv.subrange(0, i as int));
        }
        r.push(t);
        i += 1;
    }
    assert(sv.subrange(0, v.len() as int) =~= sv);
    r
}

impl DesugaredTypeTerm {
    /// Empty ladders removed, nested ladders flattened, singletons unwrapped.
    pub fn strip_ref(&self) -> (r: DesugaredTypeTerm)
        ensures
            r@ == spec_d_strip(self@),
        decreases self,
    {
        proof { lemma_dview_variant(self); }
        match self {
            DesugaredTypeTerm::Ladder(rungs) => {
                let mut rs = d_strip_rungs(rungs);
                proof { lemma_dterms_view(rs@); }
                if rs.len() == 1 {
                    rs[0].copy()
                } else {
                    DesugaredTypeTerm::Ladder(rs)
                }
            },
            DesugaredTypeTerm::App(args) => {
                let a = d_strip_seq(args);
                proof { lemma_dterms_view(a@); }
                if a.len() == 0 {
                    DesugaredTypeTerm::unit()
                } else if a.len() == 1 {
                    a[0].copy()
                } else {
                    DesugaredTypeTerm::App(a)
                }
            },
            _ => self.copy(),
        }
    }

    /// Empty ladders removed, nested ladders flattened, singletons unwrapped.
    pub fn strip(self) -> (r: DesugaredTypeTerm)
        ensures
            r@ == spec_d_strip(self@),
    {
        self.strip_ref()
    }

    /// The interface type: the top rung of each ladder.
    pub fn get_interface_type(&self) -> (r: DesugaredTypeTerm)
        ensures
            r@ == spec_d_interface(self@),
        decreases self,
    {
        proof { lemma_dview_variant(self); }
        match self {
            DesugaredTypeTerm::Ladder(rungs) => {
                proof { lemma_dterms_view(rungs@); }
                if rungs.len() > 0 {
                    rungs[0].get_interface_type()
                } else {
                    DesugaredTypeTerm::unit()
                }
            },
            DesugaredTypeTerm::App(args) => DesugaredTypeTerm::App(d_interface_seq(args)),
            _ => self.copy(),
        }
    }
}

} // verus!
