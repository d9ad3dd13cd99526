//! Ladder type terms: the executable representation and its mathematical model.

use vstd::prelude::*;

verus! {

/// The kind of a type variable bound by a universal quantifier.
#[derive(PartialEq, Eq, Hash, Debug)]
pub enum TypeKind {
    Type,
    Arrow(Box<TypeKind>, Box<TypeKind>),
    Value(TypeTerm),
}

/// A variable declared in a context, with its symbol and kind.
#[derive(PartialEq, Eq, Hash, Debug)]
pub struct ContextEntry {
    pub symbol: String,
    pub kind: TypeKind,
}

/// A relation between two type terms.
#[derive(PartialEq, Eq, Hash, Debug)]
pub enum ConstraintPair {
    ValueOf(TypeTerm, TypeTerm),
    Subtype(TypeTerm, TypeTerm),
    Trait(TypeTerm, TypeTerm),
    Parallel(TypeTerm, TypeTerm),
}

/// A named member of a struct type.
#[derive(PartialEq, Eq, Hash, Debug)]
pub struct StructMember {
    pub symbol: String,
    pub ty: TypeTerm,
}

/// A named variant of an enum type.
#[derive(PartialEq, Eq, Hash, Debug)]
pub struct EnumVariant {
    pub symbol: String,
    pub ty: TypeTerm,
}

/// A type term.  `Ladder` expresses "represented as": `A ~ B` is the ladder `[A, B]`.
#[derive(PartialEq, Eq, Hash, Debug)]
pub enum TypeTerm {
    Id(u64),
    Var(u64),
    Num(i64),
    Char(char),
    Univ { gamma: Vec<ContextEntry>, bounds: Vec<ConstraintPair>, tau: Box<TypeTerm> },
    Spec(Vec<TypeTerm>),
    Func(Vec<TypeTerm>),
    Morph(Box<TypeTerm>, Box<TypeTerm>),
    Ladder(Vec<TypeTerm>),
    Struct { struct_repr: Option<Box<TypeTerm>>, members: Vec<StructMember> },
    Enum { enum_repr: Option<Box<TypeTerm>>, variants: Vec<EnumVariant> },
    Sequence { seq_repr: Option<Box<TypeTerm>>, item: Box<TypeTerm> },
}

//------------------------------------------------------------------
// Mathematical model
//------------------------------------------------------------------

/// Model of a `TypeKind`.
pub enum KindV {
    Type,
    Arrow(Box<KindV>, Box<KindV>),
    Value(Box<TermV>),
}

/// Model of a `ContextEntry`.
pub struct EntryV {
    pub symbol: Seq<char>,
    pub kind: KindV,
}

/// Model of a `ConstraintPair`.
pub enum PairV {
    ValueOf(TermV, TermV),
    Subtype(TermV, TermV),
    Trait(TermV, TermV),
    Parallel(TermV, TermV),
}

/// Model of a struct member or an enum variant: its symbol and its type.
pub struct FieldV {
    pub symbol: Seq<char>,
    pub ty: TermV,
}

/// Model of a `TypeTerm`: vectors become sequences, strings become sequences of chars.
pub enum TermV {
    Id(u64),
    Var(u64),
    Num(i64),
    Char(char),
    Univ { gamma: Seq<EntryV>, bounds: Seq<PairV>, tau: Box<TermV> },
    Spec(Seq<TermV>),
    Func(Seq<TermV>),
    Morph(Box<TermV>, Box<TermV>),
    Ladder(Seq<TermV>),
    Struct { repr: Option<Box<TermV>>, members: Seq<FieldV> },
    Enum { repr: Option<Box<TermV>>, variants: Seq<FieldV> },
    Sequence { repr: Option<Box<TermV>>, item: Box<TermV> },
}

pub open spec fn kind_view(k: TypeKind) -> KindV
    decreases k,
{
    match k {
        TypeKind::Type => KindV::Type,
        TypeKind::Arrow(a, b) => KindV::Arrow(Box::new(kind_view(*a)), Box::new(kind_view(*b))),
        TypeKind::Value(t) => KindV::Value(Box::new(term_view(t))),
    }
}

pub open spec fn entries_view(s: Seq<ContextEntry>) -> Seq<EntryV>
    decreases s,
{
    if s.len() == 0 {
        Seq::empty()
    } else {
        entries_view(s.subrange(0, s.len() - 1)).push(EntryV { symbol: s[s.len() - 1].symbol@, kind: kind_view(s[s.len() - 1].kind) })
    }
}

pub open spec fn pair_view(p: ConstraintPair) -> PairV
    decreases p,
{
    match p {
        ConstraintPair::ValueOf(a, b) => PairV::ValueOf(term_view(a), term_view(b)),
        ConstraintPair::Subtype(a, b) => PairV::Subtype(term_view(a), term_view(b)),
        ConstraintPair::Trait(a, b) => PairV::Trait(term_view(a), term_view(b)),
        ConstraintPair::Parallel(a, b) => PairV::Parallel(term_view(a), term_view(b)),
    }
}

pub open spec fn pairs_view(s: Seq<ConstraintPair>) -> Seq<PairV>
    decreases s,
{
    if s.len() == 0 {
        Seq::empty()
    } else {
        pairs_view(s.subrange(0, s.len() - 1)).push(pair_view(s[s.len() - 1]))
    }
}

pub open spec fn terms_view(s: Seq<TypeTerm>) -> Seq<TermV>
    decreases s,
{
    if s.len() == 0 {
        Seq::empty()
    } else {
        terms_view(s.subrange(0, s.len() - 1)).push(term_view(s[s.len() - 1]))
    }
}

pub open spec fn members_view(s: Seq<StructMember>) -> Seq<FieldV>
    decreases s,
{
    if s.len() == 0 {
        Seq::empty()
    } else {
        members_view(s.subrange(0, s.len() - 1)).push(FieldV { symbol: s[s.len() - 1].symbol@, ty: term_view(s[s.len() - 1].ty) })
    }
}

pub open spec fn variants_view(s: Seq<EnumVariant>) -> Seq<FieldV>
    decreases s,
{
    if s.len() == 0 {
        Seq::empty()
    } else {
        variants_view(s.subrange(0, s.len() - 1)).push(FieldV { symbol: s[s.len() - 1].symbol@, ty: term_view(s[s.len() - 1].ty) })
    }
}

pub open spec fn opt_view(o: Option<Box<TypeTerm>>) -> Option<Box<TermV>>
    decreases o,
{
    match o {
        Some(b) => Some(Box::new(term_view(*b))),
        None => None,
    }
}

pub open spec fn term_view(t: TypeTerm) -> TermV
    decreases t,
{
    match t {
        TypeTerm::Id(x) => TermV::Id(x),
        TypeTerm::Var(x) => TermV::Var(x),
        TypeTerm::Num(n) => TermV::Num(n),
        TypeTerm::Char(c) => TermV::Char(c),
        TypeTerm::Univ { gamma, bounds, tau } => TermV::Univ {
            gamma: entries_view(gamma@),
            bounds: pairs_view(bounds@),
            tau: Box::new(term_view(*tau)),
        },
        TypeTerm::Spec(a) => TermV::Spec(terms_view(a@)),
        TypeTerm::Func(a) => TermV::Func(terms_view(a@)),
        TypeTerm::Morph(a, b) => TermV::Morph(Box::new(term_view(*a)), Box::new(term_view(*b))),
        TypeTerm::Ladder(a) => TermV::Ladder(terms_view(a@)),
        TypeTerm::Struct { struct_repr, members } => TermV::Struct {
            repr: opt_view(struct_repr),
            members: members_view(members@),
        },
        TypeTerm::Enum { enum_repr, variants } => TermV::Enum {
            repr: opt_view(enum_repr),
            variants: variants_view(variants@),
        },
        TypeTerm::Sequence { seq_repr, item } => TermV::Sequence {
            repr: opt_view(seq_repr),
            item: Box::new(term_view(*item)),
        },
    }
}

impl View for TypeTerm {
    type V = TermV;

    open spec fn view(&self) -> TermV {
        term_view(*self)
    }
}

/// The view of an optional boxed term.
pub proof fn lemma_opt_view(o: Option<Box<TypeTerm>>)
    ensures
        opt_view(o) == match o {
            Some(b) => Some(Box::new(term_view(*b))),
            None => None,
        },
{
}

/// The view of a term has the term's own variant.
pub proof fn lemma_view_variant(t: &TypeTerm)
    ensures
        (t@ is Id) == (*t is Id),
        (t@ is Var) == (*t is Var),
        (t@ is Num) == (*t is Num),
        (t@ is Char) == (*t is Char),
        (t@ is Univ) == (*t is Univ),
        (t@ is Spec) == (*t is Spec),
        (t@ is Func) == (*t is Func),
        (t@ is Morph) == (*t is Morph),
        (t@ is Ladder) == (*t is Ladder),
        (t@ is Struct) == (*t is Struct),
        (t@ is Enum) == (*t is Enum),
        (t@ is Sequence) == (*t is Sequence),
{
}

impl View for StructMember {
    type V = FieldV;

    open spec fn view(&self) -> FieldV {
        FieldV { symbol: self.symbol@, ty: term_view(self.ty) }
    }
}

impl View for EnumVariant {
    type V = FieldV;

    open spec fn view(&self) -> FieldV {
        FieldV { symbol: self.symbol@, ty: term_view(self.ty) }
    }
}

impl View for ConstraintPair {
    type V = PairV;

    open spec fn view(&self) -> PairV {
        pair_view(*self)
    }
}

impl View for ContextEntry {
    type V = EntryV;

    open spec fn view(&self) -> EntryV {
        EntryV { symbol: self.symbol@, kind: kind_view(self.kind) }
    }
}

impl View for TypeKind {
    type V = KindV;

    open spec fn view(&self) -> KindV {
        kind_view(*self)
    }
}


//------------------------------------------------------------------
// Facts about the sequence views
//------------------------------------------------------------------

pub proof fn lemma_terms_view(s: Seq<TypeTerm>)
    ensures
        terms_view(s).len() == s.len(),
        forall|i: int| 0 <= i < s.len() ==> #[trigger] terms_view(s)[i] == term_view(s[i]),
    decreases s.len(),
{
    if s.len() > 0 {
        lemma_terms_view(s.subrange(0, s.len() - 1));
    }
}

pub proof fn lemma_entries_view(s: Seq<ContextEntry>)
    ensures
        entries_view(s).len() == s.len(),
        forall|i: int| 0 <= i < s.len() ==> #[trigger] entries_view(s)[i] == s[i]@,
    decreases s.len(),
{
    if s.len() > 0 {
        lemma_entries_view(s.subrange(0, s.len() - 1));
    }
}

pub proof fn lemma_pairs_view(s: Seq<ConstraintPair>)
    ensures
        pairs_view(s).len() == s.len(),
        forall|i: int| 0 <= i < s.len() ==> #[trigger] pairs_view(s)[i] == pair_view(s[i]),
    decreases s.len(),
{
    if s.len() > 0 {
        lemma_pairs_view(s.subrange(0, s.len() - 1));
    }
}

pub proof fn lemma_members_view(s: Seq<StructMember>)
    ensures
        members_view(s).len() == s.len(),
        forall|i: int| 0 <= i < s.len() ==> #[trigger] members_view(s)[i] == s[i]@,
    decreases s.len(),
{
    if s.len() > 0 {
        lemma_members_view(s.subrange(0, s.len() - 1));
    }
}

pub proof fn lemma_variants_view(s: Seq<EnumVariant>)
    ensures
        variants_view(s).len() == s.len(),
        forall|i: int| 0 <= i < s.len() ==> #[trigger] variants_view(s)[i] == s[i]@,
    decreases s.len(),
{
    if s.len() > 0 {
        lemma_variants_view(s.subrange(0, s.len() - 1));
    }
}

/// Two sequences of terms with element-wise equal views have equal views.
pub proof fn lemma_terms_view_ext(a: Seq<TypeTerm>, b: Seq<TypeTerm>)
    requires
        a.len() == b.len(),
        forall|i: int| 0 <= i < a.len() ==> term_view(#[trigger] a[i]) == term_view(b[i]),
    ensures
        terms_view(a) == terms_view(b),
{
    lemma_terms_view(a);
    lemma_terms_view(b);
    assert(terms_view(a) =~= terms_view(b));
}

pub proof fn lemma_terms_view_push(s: Seq<TypeTerm>, t: TypeTerm)
    ensures
        terms_view(s.push(t)) == terms_view(s).push(term_view(t)),
{
    assert(s.push(t).subrange(0, s.len() as int) =~= s);
}

pub proof fn lemma_pairs_view_push(s: Seq<ConstraintPair>, t: ConstraintPair)
    ensures
        pairs_view(s.push(t)) == pairs_view(s).push(pair_view(t)),
{
    assert(s.push(t).subrange(0, s.len() as int) =~= s);
}

pub proof fn lemma_entries_view_push(s: Seq<ContextEntry>, t: ContextEntry)
    ensures
        entries_view(s.push(t)) == entries_view(s).push(t@),
{
    assert(s.push(t).subrange(0, s.len() as int) =~= s);
}

pub proof fn lemma_members_view_push(s: Seq<StructMember>, t: StructMember)
    ensures
        members_view(s.push(t)) == members_view(s).push(t@),
{
    assert(s.push(t).subrange(0, s.len() as int) =~= s);
}

pub proof fn lemma_variants_view_push(s: Seq<EnumVariant>, t: EnumVariant)
    ensures
        variants_view(s.push(t)) == variants_view(s).push(t@),
{
    assert(s.push(t).subrange(0, s.len() as int) =~= s);
}

pub proof fn lemma_terms_view_append(a: Seq<TypeTerm>, b: Seq<TypeTerm>)
    ensures
        terms_view(a + b) == terms_view(a) + terms_view(b),
    decreases b.len(),
{
    if b.len() == 0 {
        assert(a + b =~= a);
        assert(terms_view(a) + terms_view(b) =~= terms_view(a));
    } else {
        let b0 = b.subrange(0, b.len() - 1);
        lemma_terms_view_append(a, b0);
        assert((a + b).subrange(0, (a + b).len() - 1) =~= a + b0);
        assert(terms_view(b) == terms_view(b0).push(term_view(b[b.len() - 1])));
        assert(terms_view(a) + terms_view(b) =~= (terms_view(a) + terms_view(b0)).push(term_view(b[b.len() - 1])));
    }
}

/// The view of a prefix is the prefix of the view.
pub proof fn lemma_terms_view_prefix(s: Seq<TypeTerm>, n: int)
    requires
        0 <= n <= s.len(),
    ensures
        terms_view(s.subrange(0, n)) == terms_view(s).subrange(0, n),
{
    lemma_terms_view(s);
    lemma_terms_view(s.subrange(0, n));
    assert(terms_view(s.subrange(0, n)) =~= terms_view(s).subrange(0, n));
}

/// Copies the first `n` terms of a vector.
pub fn copy_prefix(v: &Vec<TypeTerm>, n: usize) -> (r: Vec<TypeTerm>)
    requires
        n <= v.len(),
    ensures
        terms_view(r@) == terms_view(v@).subrange(0, n as int),
{
    let mut r: Vec<TypeTerm> = Vec::new();
    let mut i: usize = 0;
    while i < n
        invariant
            i <= n <= v.len(),
            r.len() == i,
            forall|j: int| 0 <= j < i ==> term_view(#[trigger] r@[j]) == term_view(v@[j]),
        decreases n - i,
    {
        r.push(v[i].copy());
        i += 1;
    }
    proof {
        lemma_terms_view_ext(r@, v@.subrange(0, n as int));
        lemma_terms_view_prefix(v@, n as int);
    }
    r
}

pub proof fn lemma_terms_view_prepend(s: Seq<TypeTerm>, t: TypeTerm)
    ensures
        terms_view(s.insert(0, t)) == seq![term_view(t)] + terms_view(s),
{
    lemma_terms_view(s);
    lemma_terms_view(s.insert(0, t));
    assert(terms_view(s.insert(0, t)) =~= seq![term_view(t)] + terms_view(s));
}

//------------------------------------------------------------------
// Copying and comparing
//------------------------------------------------------------------

/// Copies a vector of terms, element by element.
pub fn copy_terms(v: &Vec<TypeTerm>) -> (r: Vec<TypeTerm>)
    ensures
        terms_view(r@) == terms_view(v@),
    decreases v,
{
    let mut r: Vec<TypeTerm> = Vec::new();
    let mut i: usize = 0;
    while i < v.len()
        invariant
            i <= v.len(),
            r.len() == i,
            forall|j: int| 0 <= j < i ==> term_view(#[trigger] r@[j]) == term_view(v@[j]),
        decreases v.len() - i,
    {
        let t = v[i].copy();
        r.push(t);
        i += 1;
    }
    proof {
        lemma_terms_view_ext(r@, v@);
    }
    r
}

pub fn copy_entries(v: &Vec<ContextEntry>) -> (r: Vec<ContextEntry>)
    ensures
        entries_view(r@) == entries_view(v@),
    decreases v,
{
    let mut r: Vec<ContextEntry> = Vec::new();
    let mut i: usize = 0;
    while i < v.len()
        invariant
            i <= v.len(),
            r.len() == i,
            forall|j: int| 0 <= j < i ==> (#[trigger] r@[j])@ == v@[j]@,
        decreases v.len() - i,
    {
        let e = ContextEntry { symbol: v[i].symbol.clone(), kind: v[i].kind.copy() };
        r.push(e);
        i += 1;
    }
    proof {
        lemma_entries_view(r@);
        lemma_entries_view(v@);
        assert(entries_view(r@) =~= entries_view(v@));
    }
    r
}

pub fn copy_pairs(v: &Vec<ConstraintPair>) -> (r: Vec<ConstraintPair>)
    ensures
        pairs_view(r@) == pairs_view(v@),
    decreases v,
{
    let mut r: Vec<ConstraintPair> = Vec::new();
    let mut i: usize = 0;
    while i < v.len()
        invariant
            i <= v.len(),
            r.len() == i,
            forall|j: int| 0 <= j < i ==> pair_view(#[trigger] r@[j]) == pair_view(v@[j]),
        decreases v.len() - i,
    {
        let e = v[i].copy();
        r.push(e);
        i += 1;
    }
    proof {
        lemma_pairs_view(r@);
        lemma_pairs_view(v@);
        assert(pairs_view(r@) =~= pairs_view(v@));
    }
    r
}

pub fn copy_members(v: &Vec<StructMember>) -> (r: Vec<StructMember>)
    ensures
        members_view(r@) == members_view(v@),
    decreases v,
{
    let mut r: Vec<StructMember> = Vec::new();
    let mut i: usize = 0;
    while i < v.len()
        invariant
            i <= v.len(),
            r.len() == i,
            forall|j: int| 0 <= j < i ==> (#[trigger] r@[j])@ == v@[j]@,
        decreases v.len() - i,
    {
        let e = StructMember { symbol: v[i].symbol.clone(), ty: v[i].ty.copy() };
        r.push(e);
        i += 1;
    }
    proof {
        lemma_members_view(r@);
        lemma_members_view(v@);
        assert(members_view(r@) =~= members_view(v@));
    }
    r
}

pub fn copy_variants(v: &Vec<EnumVariant>) -> (r: Vec<EnumVariant>)
    ensures
        variants_view(r@) == variants_view(v@),
    decreases v,
{
    let mut r: Vec<EnumVariant> = Vec::new();
    let mut i: usize = 0;
    while i < v.len()
        invariant
            i <= v.len(),
            r.len() == i,
            forall|j: int| 0 <= j < i ==> (#[trigger] r@[j])@ == v@[j]@,
        decreases v.len() - i,
    {
        let e = EnumVariant { symbol: v[i].symbol.clone(), ty: v[i].ty.copy() };
        r.push(e);
        i += 1;
    }
    proof {
        lemma_variants_view(r@);
        lemma_variants_view(v@);
        assert(variants_view(r@) =~= variants_view(v@));
    }
    r
}

/// Copies an optional boxed term.
pub fn copy_opt(o: &Option<Box<TypeTerm>>) -> (r: Option<Box<TypeTerm>>)
    ensures
        opt_view(r) == opt_view(*o),
    decreases o,
{
    match o {
        Some(b) => Some(Box::new(b.copy())),
        None => None,
    }
}

impl TypeKind {
    /// A copy of this kind.
    pub fn copy(&self) -> (r: TypeKind)
        ensures
            r@ == self@,
        decreases self,
    {
        match self {
            TypeKind::Type => TypeKind::Type,
            TypeKind::Arrow(a, b) => TypeKind::Arrow(Box::new(a.copy()), Box::new(b.copy())),
            TypeKind::Value(t) => TypeKind::Value(t.copy()),
        }
    }
}

impl ConstraintPair {
    /// A copy of this constraint.
    pub fn copy(&self) -> (r: ConstraintPair)
        ensures
            r@ == self@,
        decreases self,
    {
        match self {
            ConstraintPair::ValueOf(a, b) => ConstraintPair::ValueOf(a.copy(), b.copy()),
            ConstraintPair::Subtype(a, b) => ConstraintPair::Subtype(a.copy(), b.copy()),
            ConstraintPair::Trait(a, b) => ConstraintPair::Trait(a.copy(), b.copy()),
            ConstraintPair::Parallel(a, b) => ConstraintPair::Parallel(a.copy(), b.copy()),
        }
    }
}

impl TypeTerm {
    /// A copy of this term.
    pub fn copy(&self) -> (r: TypeTerm)
        ensures
            r@ == self@,
        decreases self,
    {
        match self {
            TypeTerm::Id(x) => TypeTerm::Id(*x),
            TypeTerm::Var(x) => TypeTerm::Var(*x),
            TypeTerm::Num(n) => TypeTerm::Num(*n),
            TypeTerm::Char(c) => TypeTerm::Char(*c),
            TypeTerm::Univ { gamma, bounds, tau } => TypeTerm::Univ {
                gamma: copy_entries(gamma),
                bounds: copy_pairs(bounds),
                tau: Box::new(tau.copy()),
            },
            TypeTerm::Spec(a) => TypeTerm::Spec(copy_terms(a)),
            TypeTerm::Func(a) => TypeTerm::Func(copy_terms(a)),
            TypeTerm::Morph(a, b) => TypeTerm::Morph(Box::new(a.copy()), Box::new(b.copy())),
            TypeTerm::Ladder(a) => TypeTerm::Ladder(copy_terms(a)),
            TypeTerm::Struct { struct_repr, members } => TypeTerm::Struct {
                struct_repr: copy_opt(struct_repr),
                members: copy_members(members),
            },
            TypeTerm::Enum { enum_repr, variants } => TypeTerm::Enum {
                enum_repr: copy_opt(enum_repr),
                variants: copy_variants(variants),
            },
            TypeTerm::Sequence { seq_repr, item } => TypeTerm::Sequence {
                seq_repr: copy_opt(seq_repr),
                item: Box::new(item.copy()),
            },
        }
    }
}


/// Whether two vectors of terms have the same model.
pub fn same_terms(a: &Vec<TypeTerm>, b: &Vec<TypeTerm>) -> (r: bool)
    ensures
        r == (terms_view(a@) == terms_view(b@)),
    decreases a,
{
    proof {
        lemma_terms_view(a@);
        lemma_terms_view(b@);
    }
    if a.len() != b.len() {
        return false;
    }
    let mut i: usize = 0;
    while i < a.len()
        invariant
            i <= a.len(),
            a.len() == b.len(),
            terms_view(a@).len() == a.len(),
            terms_view(b@).len() == b.len(),
            forall|j: int| 0 <= j < a.len() ==> #[trigger] terms_view(a@)[j] == term_view(a@[j]),
            forall|j: int| 0 <= j < b.len() ==> #[trigger] terms_view(b@)[j] == term_view(b@[j]),
            forall|j: int| 0 <= j < i ==> term_view(#[trigger] a@[j]) == term_view(b@[j]),
        decreases a.len() - i,
    {
        if !a[i].same(&b[i]) {
            assert(terms_view(a@)[i as int] != terms_view(b@)[i as int]);
            return false;
        }
        i += 1;
    }
    assert(terms_view(a@) =~= terms_view(b@));
    true
}

fn same_fields_members(a: &Vec<StructMember>, b: &Vec<StructMember>) -> (r: bool)
    ensures
        r == (members_view(a@) == members_view(b@)),
    decreases a,
{
    proof {
        lemma_members_view(a@);
        lemma_members_view(b@);
    }
    if a.len() != b.len() {
        return false;
    }
    let mut i: usize = 0;
    while i < a.len()
        invariant
            i <= a.len(),
            a.len() == b.len(),
            members_view(a@).len() == a.len(),
            members_view(b@).len() == b.len(),
            forall|j: int| 0 <= j < a.len() ==> #[trigger] members_view(a@)[j] == a@[j]@,
            forall|j: int| 0 <= j < b.len() ==> #[trigger] members_view(b@)[j] == b@[j]@,
            forall|j: int| 0 <= j < i ==> (#[trigger] a@[j])@ == b@[j]@,
        decreases a.len() - i,
    {
        if !(a[i].symbol == b[i].symbol) || !a[i].ty.same(&b[i].ty) {
            assert(members_view(a@)[i as int] != members_view(b@)[i as int]);
            return false;
        }
        i += 1;
    }
    assert(members_view(a@) =~= members_view(b@));
    true
}

fn same_fields_variants(a: &Vec<EnumVariant>, b: &Vec<EnumVariant>) -> (r: bool)
    ensures
        r == (variants_view(a@) == variants_view(b@)),
    decreases a,
{
    proof {
        lemma_variants_view(a@);
        lemma_variants_view(b@);
    }
    if a.len() != b.len() {
        return false;
    }
    let mut i: usize = 0;
    while i < a.len()
        invariant
            i <= a.len(),
            a.len() == b.len(),
            variants_view(a@).len() == a.len(),
            variants_view(b@).len() == b.len(),
            forall|j: int| 0 <= j < a.len() ==> #[trigger] variants_view(a@)[j] == a@[j]@,
            forall|j: int| 0 <= j < b.len() ==> #[trigger] variants_view(b@)[j] == b@[j]@,
            forall|j: int| 0 <= j < i ==> (#[trigger] a@[j])@ == b@[j]@,
        decreases a.len() - i,
    {
        if !(a[i].symbol == b[i].symbol) || !a[i].ty.same(&b[i].ty) {
            assert(variants_view(a@)[i as int] != variants_view(b@)[i as int]);
            return false;
        }
        i += 1;
    }
    assert(variants_view(a@) =~= variants_view(b@));
    true
}

pub(crate) fn same_entries(a: &Vec<ContextEntry>, b: &Vec<ContextEntry>) -> (r: bool)
    ensures
        r == (entries_view(a@) == entries_view(b@)),
    decreases a,
{
    proof {
        lemma_entries_view(a@);
        lemma_entries_view(b@);
    }
    if a.len() != b.len() {
        return false;
    }
    let mut i: usize = 0;
    while i < a.len()
        invariant
            i <= a.len(),
            a.len() == b.len(),
            entries_view(a@).len() == a.len(),
            entries_view(b@).len() == b.len(),
            forall|j: int| 0 <= j < a.len() ==> #[trigger] entries_view(a@)[j] == a@[j]@,
            forall|j: int| 0 <= j < b.len() ==> #[trigger] entries_view(b@)[j] == b@[j]@,
            forall|j: int| 0 <= j < i ==> (#[trigger] a@[j])@ == b@[j]@,
        decreases a.len() - i,
    {
        if !(a[i].symbol == b[i].symbol) || !a[i].kind.same(&b[i].kind) {
            assert(entries_view(a@)[i as int] != entries_view(b@)[i as int]);
            return false;
        }
        i += 1;
    }
    assert(entries_view(a@) =~= entries_view(b@));
    true
}

pub(crate) fn same_pairs(a: &Vec<ConstraintPair>, b: &Vec<ConstraintPair>) -> (r: bool)
    ensures
        r == (pairs_view(a@) == pairs_view(b@)),
    decreases a,
{
    proof {
        lemma_pairs_view(a@);
        lemma_pairs_view(b@);
    }
    if a.len() != b.len() {
        return false;
    }
    let mut i: usize = 0;
    while i < a.len()
        invariant
            i <= a.len(),
            a.len() == b.len(),
            pairs_view(a@).len() == a.len(),
            pairs_view(b@).len() == b.len(),
            forall|j: int| 0 <= j < a.len() ==> #[trigger] pairs_view(a@)[j] == pair_view(a@[j]),
            forall|j: int| 0 <= j < b.len() ==> #[trigger] pairs_view(b@)[j] == pair_view(b@[j]),
            forall|j: int| 0 <= j < i ==> pair_view(#[trigger] a@[j]) == pair_view(b@[j]),
        decreases a.len() - i,
    {
        if !a[i].same(&b[i]) {
            assert(pairs_view(a@)[i as int] != pairs_view(b@)[i as int]);
            return false;
        }
        i += 1;
    }
    assert(pairs_view(a@) =~= pairs_view(b@));
    true
}

/// Whether two optional boxed terms have the same model.
pub fn same_opt(a: &Option<Box<TypeTerm>>, b: &Option<Box<TypeTerm>>) -> (r: bool)
    ensures
        r == (opt_view(*a) == opt_view(*b)),
    decreases a,
{
    match (a, b) {
        (Some(x), Some(y)) => x.same(y),
        (None, None) => true,
        _ => false,
    }
}

impl TypeKind {
    /// Whether two kinds have the same model.
    pub fn same(&self, other: &TypeKind) -> (r: bool)
        ensures
            r == (self@ == other@),
        decreases self,
    {
        match (self, other) {
            (TypeKind::Type, TypeKind::Type) => true,
            (TypeKind::Arrow(a1, b1), TypeKind::Arrow(a2, b2)) => a1.same(a2) && b1.same(b2),
            (TypeKind::Value(t1), TypeKind::Value(t2)) => t1.same(t2),
            _ => false,
        }
    }
}

impl ConstraintPair {
    /// Whether two constraints have the same model.
    pub fn same(&self, other: &ConstraintPair) -> (r: bool)
        ensures
            r == (self@ == other@),
        decreases self,
    {
        match (self, other) {
            (ConstraintPair::ValueOf(a1, b1), ConstraintPair::ValueOf(a2, b2)) => a1.same(a2) && b1.same(b2),
            (ConstraintPair::Subtype(a1, b1), ConstraintPair::Subtype(a2, b2)) => a1.same(a2) && b1.same(b2),
            (ConstraintPair::Trait(a1, b1), ConstraintPair::Trait(a2, b2)) => a1.same(a2) && b1.same(b2),
            (ConstraintPair::Parallel(a1, b1), ConstraintPair::Parallel(a2, b2)) => a1.same(a2) && b1.same(b2),
            _ => false,
        }
    }
}

impl TypeTerm {
    /// Whether two terms have the same model (structural equality).
    pub fn same(&self, other: &TypeTerm) -> (r: bool)
        ensures
            r == (self@ == other@),
        decreases self,
    {
        match (self, other) {
            (TypeTerm::Id(a), TypeTerm::Id(b)) => *a == *b,
            (TypeTerm::Var(a), TypeTerm::Var(b)) => *a == *b,
            (TypeTerm::Num(a), TypeTerm::Num(b)) => *a == *b,
            (TypeTerm::Char(a), TypeTerm::Char(b)) => *a == *b,
            (TypeTerm::Univ { gamma: g1, bounds: b1, tau: t1 }, TypeTerm::Univ { gamma: g2, bounds: b2, tau: t2 }) =>
                same_entries(g1, g2) && same_pairs(b1, b2) && t1.same(t2),
            (TypeTerm::Spec(a), TypeTerm::Spec(b)) => same_terms(a, b),
            (TypeTerm::Func(a), TypeTerm::Func(b)) => same_terms(a, b),
            (TypeTerm::Morph(a1, b1), TypeTerm::Morph(a2, b2)) => a1.same(a2) && b1.same(b2),
            (TypeTerm::Ladder(a), TypeTerm::Ladder(b)) => same_terms(a, b),
            (TypeTerm::Struct { struct_repr: r1, members: m1 }, TypeTerm::Struct { struct_repr: r2, members: m2 }) =>
                same_opt(r1, r2) && same_fields_members(m1, m2),
            (TypeTerm::Enum { enum_repr: r1, variants: v1 }, TypeTerm::Enum { enum_repr: r2, variants: v2 }) =>
                same_opt(r1, r2) && same_fields_variants(v1, v2),
            (TypeTerm::Sequence { seq_repr: r1, item: i1 }, TypeTerm::Sequence { seq_repr: r2, item: i2 }) =>
                same_opt(r1, r2) && i1.same(i2),
            _ => false,
        }
    }
}
} // verus!
