//! Layered typing contexts: declared type variables, type names and bindings, each layer
//! on top of its parent.

use vstd::prelude::*;
use vstd::string::StringExecFns;
use std::collections::HashMap;
use crate::term::{TypeTerm, TermV, ContextEntry, EntryV, TypeKind, KindV, entries_view, lemma_entries_view};
use crate::dict::TypeID;
use crate::substitution::{HashMapSubst, subst_view, SubstError, Substitution};
use crate::numfmt::{spec_nat_str, push_u64};
use crate::lexer::{string_from_chars, chars_of};

verus! {

/// A context layer: its name, its variables (`gamma`), its type names, the bindings of
/// its variables (`sigma`) and its parent layer.
#[derive(Debug)]
pub struct Context {
    ctxname: String,
    sub_count: u64,
    parent: Option<Box<Context>>,
    names: Vec<String>,
    pub gamma: Vec<ContextEntry>,
    pub sigma: HashMapSubst,
}

/// Model of a context.
pub struct CtxV {
    pub name: Seq<char>,
    pub sub_count: u64,
    pub names: Seq<Seq<char>>,
    pub gamma: Seq<EntryV>,
    pub sigma: Map<u64, TermV>,
    pub parent: Option<Box<CtxV>>,
}

/// The number of layers of a context.
pub open spec fn ctx_depth(c: CtxV) -> nat
    decreases c,
{
    match c.parent {
        Some(p) => 1 + ctx_depth(*p),
        None => 1,
    }
}

/// Whether two contexts hold the same layers: the same names and variables in each
/// layer, and the same bindings in each layer that has a parent.
pub open spec fn spec_ctx_eq(a: CtxV, b: CtxV) -> bool
    decreases a,
{
    &&& match (a.parent, b.parent) {
        (Some(p1), Some(p2)) => spec_ctx_eq(*p1, *p2) && a.sigma == b.sigma,
        (None, None) => true,
        _ => false,
    }
    &&& a.names == b.names
    &&& a.gamma == b.gamma
}

/// Context equality is reflexive and symmetric.
pub proof fn law_ctx_eq_equivalence(a: CtxV, b: CtxV)
    ensures
        spec_ctx_eq(a, a),
        spec_ctx_eq(a, b) == spec_ctx_eq(b, a),
    decreases a,
{
    match (a.parent, b.parent) {
        (Some(p1), Some(p2)) => {
            law_ctx_eq_equivalence(*p1, *p2);
        },
        (Some(p1), None) => {
            law_ctx_eq_equivalence(*p1, *p1);
        },
        _ => {},
    }
}

/// Whether two vectors of strings are the same.
fn same_strings(a: &Vec<String>, b: &Vec<String>) -> (r: bool)
    ensures
        r == (strings_view(a@) == strings_view(b@)),
{
    if a.len() != b.len() {
        proof { assert(strings_view(a@).len() != strings_view(b@).len()); }
        return false;
    }
    let mut i: usize = 0;
    while i < a.len()
        invariant
            i <= a.len(),
            a.len() == b.len(),
            forall|j: int| 0 <= j < i ==> (#[trigger] strings_view(a@)[j]) == strings_view(b@)[j],
        decreases a.len() - i,
    {
        if a[i] != b[i] {
            proof { assert(strings_view(a@)[i as int] != strings_view(b@)[i as int]); }
            return false;
        }
        i += 1;
    }
    assert(strings_view(a@) =~= strings_view(b@));
    true
}

pub open spec fn strings_view(s: Seq<String>) -> Seq<Seq<char>> {
    s.map_values(|x: String| x@)
}

pub closed spec fn ctx_view(c: Context) -> CtxV
    decreases c,
{
    CtxV {
        name: c.ctxname@,
        sub_count: c.sub_count,
        names: strings_view(c.names@),
        gamma: entries_view(c.gamma@),
        sigma: subst_view(c.sigma),
        parent: match c.parent {
            Some(p) => Some(Box::new(ctx_view(*p))),
            None => None,
        },
    }
}

impl View for Context {
    type V = CtxV;

    closed spec fn view(&self) -> CtxV {
        ctx_view(*self)
    }
}

/// The number of variables and type names in all layers.
pub open spec fn ctx_size(c: CtxV) -> nat
    decreases c,
{
    c.gamma.len() + c.names.len() + match c.parent {
        Some(p) => ctx_size(*p),
        None => 0,
    }
}

/// The number of variables in all layers.
pub open spec fn ctx_n_variables(c: CtxV) -> nat
    decreases c,
{
    c.gamma.len() + match c.parent {
        Some(p) => ctx_n_variables(*p),
        None => 0,
    }
}

/// The first index of a variable with symbol `tn` in `g`.
pub open spec fn first_entry(g: Seq<EntryV>, tn: Seq<char>) -> Option<int>
    decreases g.len(),
{
    if g.len() == 0 {
        None
    } else {
        match first_entry(g.drop_last(), tn) {
            Some(i) => Some(i),
            None => if g.last().symbol == tn { Some(g.len() - 1) } else { None },
        }
    }
}

/// The first index of `tn` in `n`.
pub open spec fn first_name(n: Seq<Seq<char>>, tn: Seq<char>) -> Option<int>
    decreases n.len(),
{
    if n.len() == 0 {
        None
    } else {
        match first_name(n.drop_last(), tn) {
            Some(i) => Some(i),
            None => if n.last() == tn { Some(n.len() - 1) } else { None },
        }
    }
}

/// The identifier of a name: a variable of this layer, a type name of this layer, or
/// what the parent has, shifted past this layer.
pub open spec fn spec_typeid(c: CtxV, tn: Seq<char>) -> Option<TypeID>
    decreases c,
{
    match first_entry(c.gamma, tn) {
        Some(i) => Some(TypeID::Var(i as u64)),
        None => match first_name(c.names, tn) {
            Some(i) => Some(TypeID::Fun(i as u64)),
            None => match c.parent {
                Some(p) => match spec_typeid(*p, tn) {
                    Some(TypeID::Fun(i)) => Some(TypeID::Fun((i + c.names.len()) as u64)),
                    Some(TypeID::Var(i)) => Some(TypeID::Var((i + c.gamma.len()) as u64)),
                    None => None,
                },
                None => None,
            },
        },
    }
}

/// A type name added: to the bottom layer, numbered past the names of the layers above.
pub open spec fn spec_add_typename(c: CtxV, tn: Seq<char>) -> (CtxV, u64)
    decreases c,
{
    match c.parent {
        Some(p) => {
            let (p2, id) = spec_add_typename(*p, tn);
            (CtxV { parent: Some(Box::new(p2)), ..c }, (id + c.names.len()) as u64)
        },
        None => (CtxV { names: c.names.push(tn), ..c }, c.names.len() as u64),
    }
}

/// The name of type constant `tid`.
pub open spec fn spec_typename(c: CtxV, tid: int) -> Option<Seq<char>>
    decreases c,
{
    if 0 <= tid < c.names.len() {
        Some(c.names[tid])
    } else {
        match c.parent {
            Some(p) => spec_typename(*p, tid),
            None => None,
        }
    }
}

/// The name of variable `vid`.
pub open spec fn spec_varname(c: CtxV, vid: int) -> Option<Seq<char>>
    decreases c,
{
    if 0 <= vid < c.gamma.len() {
        Some(c.gamma[vid].symbol)
    } else {
        match c.parent {
            Some(p) => spec_varname(*p, vid - c.gamma.len()),
            None => None,
        }
    }
}

/// A context entered from `c`: an empty layer named after `c` and its sub-scope count,
/// with `c` (its count raised) as parent.
pub open spec fn spec_enter(c: CtxV) -> CtxV {
    CtxV {
        name: c.name + seq!['+'] + spec_nat_str((c.sub_count + 1) as nat),
        sub_count: 0,
        names: Seq::empty(),
        gamma: Seq::empty(),
        sigma: Map::empty(),
        parent: Some(Box::new(CtxV { sub_count: (c.sub_count + 1) as u64, ..c })),
    }
}

/// Facts about identifiers found in a context: they are below the context's size.
pub proof fn lemma_typeid_bound(c: CtxV, tn: Seq<char>)
    ensures
        spec_typeid(c, tn) matches Some(TypeID::Fun(i)) ==> i < ctx_size(c),
        spec_typeid(c, tn) matches Some(TypeID::Var(i)) ==> i < ctx_size(c),
    decreases c,
{
    lemma_first_entry(c.gamma, tn);
    lemma_first_name(c.names, tn);
    match c.parent {
        Some(p) => {
            lemma_typeid_bound(*p, tn);
        },
        None => {},
    }
}

pub proof fn lemma_first_entry(g: Seq<EntryV>, tn: Seq<char>)
    ensures
        match first_entry(g, tn) {
            Some(i) => 0 <= i < g.len() && g[i].symbol == tn && forall|j: int| 0 <= j < i ==> g[j].symbol != tn,
            None => forall|j: int| 0 <= j < g.len() ==> g[j].symbol != tn,
        },
    decreases g.len(),
{
    if g.len() > 0 {
        let p = g.drop_last();
        lemma_first_entry(p, tn);
        assert forall|j: int| 0 <= j < p.len() implies p[j] == g[j] by {}
        assert(g.last() == g[g.len() - 1]);
    }
}

pub proof fn lemma_first_name(n: Seq<Seq<char>>, tn: Seq<char>)
    ensures
        match first_name(n, tn) {
            Some(i) => 0 <= i < n.len() && n[i] == tn && forall|j: int| 0 <= j < i ==> n[j] != tn,
            None => forall|j: int| 0 <= j < n.len() ==> n[j] != tn,
        },
    decreases n.len(),
{
    if n.len() > 0 {
        let p = n.drop_last();
        lemma_first_name(p, tn);
        assert forall|j: int| 0 <= j < p.len() implies p[j] == n[j] by {}
        assert(n.last() == n[n.len() - 1]);
    }
}

/// A context seen as a type dictionary and a stack of layers.
#[derive(Debug)]
pub struct ContextPtr(pub Context);

impl View for ContextPtr {
    type V = CtxV;

    open spec fn view(&self) -> CtxV {
        self.0@
    }
}

impl Context {
    /// A new root context, named `Ctx` and the given number.
    pub fn new(count: u64) -> (r: ContextPtr)
        ensures
            r@ == (CtxV {
                name: seq!['C', 't', 'x', ' '] + spec_nat_str(count as nat),
                sub_count: 0,
                names: Seq::empty(),
                gamma: Seq::empty(),
                sigma: Map::empty(),
                parent: None,
            }),
    {
        let mut v: Vec<char> = Vec::new();
        v.push('C');
        v.push('t');
        v.push('x');
        v.push(' ');
        assert(v@ =~= seq!['C', 't', 'x', ' ']);
        push_u64(&mut v, count);
        let c = Context {
            ctxname: string_from_chars(&v),
            sub_count: 0,
            parent: None,
            names: Vec::new(),
            gamma: Vec::new(),
            sigma: HashMap::new(),
        };
        proof {
            reveal_with_fuel(ctx_view, 1);
            assert(strings_view(c.names@) =~= Seq::<Seq<char>>::empty());
            assert(entries_view(c.gamma@) =~= Seq::<EntryV>::empty());
            assert(subst_view(c.sigma) =~= Map::<u64, TermV>::empty());
        }
        ContextPtr(c)
    }

    /// Whether two contexts hold the same layers: the same names and variables in each
    /// layer, and the same bindings in each layer that has a parent; names and scope
    /// counts of the layers aside.
    pub fn eq(&self, other: &Context) -> (r: bool)
        ensures
            r == spec_ctx_eq(self@, other@),
        decreases self,
    {
        proof { reveal_with_fuel(ctx_view, 1); }
        let parents = match (&self.parent, &other.parent) {
            (Some(p1), Some(p2)) => p1.eq(p2) && crate::base::same_subst(&self.sigma, &other.sigma),
            (None, None) => true,
            _ => false,
        };
        parents && same_strings(&self.names, &other.names) && crate::term::same_entries(&self.gamma, &other.gamma)
    }

    /// The number of variables in all layers; `None` where it exceeds a `u64`.
    pub fn try_n_variables(&self) -> (r: Option<u64>)
        ensures
            match r {
                Some(x) => x == ctx_n_variables(self@),
                None => ctx_n_variables(self@) > u64::MAX,
            },
        decreases self,
    {
        proof { lemma_entries_view(self.gamma@); }
        let l = self.gamma.len() as u64;
        match &self.parent {
            Some(p) => match p.try_n_variables() {
                Some(x) => l.checked_add(x),
                None => None,
            },
            None => Some(l),
        }
    }

    /// The number of variables and names in all layers; `None` where it exceeds a `u64`.
    pub fn try_size(&self) -> (r: Option<u64>)
        ensures
            match r {
                Some(x) => x == ctx_size(self@),
                None => ctx_size(self@) > u64::MAX,
            },
        decreases self,
    {
        proof {
            lemma_entries_view(self.gamma@);
            reveal_with_fuel(ctx_view, 1);
        }
        let own = (self.gamma.len() as u64).checked_add(self.names.len() as u64);
        match own {
            Some(o) => match &self.parent {
                Some(p) => match p.try_size() {
                    Some(x) => o.checked_add(x),
                    None => None,
                },
                None => Some(o),
            },
            None => None,
        }
    }

    /// The number of variables in all layers.
    pub fn n_variables(&self) -> (r: u64)
        requires
            ctx_n_variables(self@) <= u64::MAX,
        ensures
            r == ctx_n_variables(self@),
        decreases self,
    {
        proof { lemma_entries_view(self.gamma@); }
        let l = self.gamma.len() as u64;
        match &self.parent {
            Some(p) => l + p.n_variables(),
            None => l,
        }
    }
}

proof fn lemma_strings_view_push(s: Seq<String>, x: String)
    ensures
        strings_view(s.push(x)) == strings_view(s).push(x@),
{
    assert(strings_view(s.push(x)) =~= strings_view(s).push(x@));
}

impl Context {
    /// The first variable of this layer with the given symbol.
    fn find_var(&self, tn: &String) -> (r: Option<usize>)
        ensures
            match r {
                Some(i) => first_entry(self@.gamma, tn@) == Some(i as int),
                None => first_entry(self@.gamma, tn@) is None,
            },
    {
        proof {
            reveal_with_fuel(ctx_view, 1);
            lemma_entries_view(self.gamma@);
            lemma_first_entry(self@.gamma, tn@);
        }
        let mut i: usize = 0;
        while i < self.gamma.len()
            invariant
                i <= self.gamma.len(),
                self@.gamma == entries_view(self.gamma@),
                entries_view(self.gamma@).len() == self.gamma.len(),
                forall|j: int| 0 <= j < self.gamma.len() ==> #[trigger] entries_view(self.gamma@)[j] == self.gamma@[j]@,
                forall|j: int| 0 <= j < i ==> self@.gamma[j].symbol != tn@,
            decreases self.gamma.len() - i,
        {
            if self.gamma[i].symbol == *tn {
                assert(self@.gamma[i as int].symbol == tn@);
                proof { lemma_first_entry(self@.gamma, tn@); }
                return Some(i);
            }
            i += 1;
        }
        proof { lemma_first_entry(self@.gamma, tn@); }
        None
    }

    /// The first type name of this layer equal to `tn`.
    fn find_name(&self, tn: &String) -> (r: Option<usize>)
        ensures
            match r {
                Some(i) => first_name(self@.names, tn@) == Some(i as int),
                None => first_name(self@.names, tn@) is None,
            },
    {
        proof {
            reveal_with_fuel(ctx_view, 1);
            lemma_first_name(self@.names, tn@);
        }
        let mut i: usize = 0;
        while i < self.names.len()
            invariant
                i <= self.names.len(),
                self@.names == strings_view(self.names@),
                forall|j: int| 0 <= j < i ==> self@.names[j] != tn@,
            decreases self.names.len() - i,
        {
            if self.names[i] == *tn {
                assert(self@.names[i as int] == tn@);
                proof { lemma_first_name(self@.names, tn@); }
                return Some(i);
            }
            i += 1;
        }
        proof { lemma_first_name(self@.names, tn@); }
        None
    }

    /// The identifier of a name, through all layers.
    fn typeid_of(&self, tn: &String) -> (r: Option<TypeID>)
        requires
            ctx_size(self@) < u64::MAX,
        ensures
            r == spec_typeid(self@, tn@),
        decreases self,
    {
        proof {
            reveal_with_fuel(ctx_view, 1);
            lemma_entries_view(self.gamma@);
            lemma_typeid_bound(self@, tn@);
            reveal_with_fuel(spec_typeid, 2);
            lemma_first_entry(self@.gamma, tn@);
            lemma_first_name(self@.names, tn@);
        }
        match self.find_var(tn) {
            Some(i) => {
                assert(spec_typeid(self@, tn@) == Some(TypeID::Var(i as u64)));
                return Some(TypeID::Var(i as u64));
            },
            None => {},
        }
        match self.find_name(tn) {
            Some(i) => {
                return Some(TypeID::Fun(i as u64));
            },
            None => {},
        }
        match &self.parent {
            Some(p) => {
                proof { lemma_typeid_bound(p@, tn@); }
                match p.typeid_of(tn) {
                    Some(TypeID::Fun(i)) => Some(TypeID::Fun(i + self.names.len() as u64)),
                    Some(TypeID::Var(i)) => Some(TypeID::Var(i + self.gamma.len() as u64)),
                    None => None,
                }
            },
            None => None,
        }
    }

    /// Adds a type name to the bottom layer; the result is its number.
    fn add_typename_in(&mut self, tn: String) -> (r: u64)
        requires
            ctx_size(old(self)@) + 1 < u64::MAX,
        ensures
            (final(self)@, r) == spec_add_typename(old(self)@, tn@),
            ctx_size(final(self)@) == ctx_size(old(self)@) + 1,
            r < ctx_size(final(self)@),
        decreases *old(self),
    {
        proof { reveal_with_fuel(ctx_view, 1); }
        let mut par: Option<Box<Context>> = None;
        std::mem::swap(&mut par, &mut self.parent);
        match par {
            Some(mut p) => {
                assert(ctx_size(p@) < ctx_size(old(self)@) + 1);
                let id = p.add_typename_in(tn);
                let l = self.names.len() as u64;
                self.parent = Some(p);
                proof { reveal_with_fuel(ctx_view, 1); }
                id + l
            },
            None => {
                let idx = self.names.len() as u64;
                proof { lemma_strings_view_push(self.names@, tn); }
                self.names.push(tn);
                proof { reveal_with_fuel(ctx_view, 1); }
                idx
            },
        }
    }
}

impl ContextPtr {
    /// The name of the context.
    pub fn get_ctxname(&self) -> (r: String)
        ensures
            r@ == self@.name,
    {
        proof { reveal_with_fuel(ctx_view, 1); }
        self.0.ctxname.clone()
    }

    /// The identifier of a name, through all layers.
    pub fn get_typeid(&self, tn: &str) -> (r: Option<TypeID>)
        requires
            ctx_size(self@) < u64::MAX,
        ensures
            r == spec_typeid(self@, tn@),
    {
        self.0.typeid_of(&String::from_str(tn))
    }

    /// Adds a type name to the bottom layer; the result is its number.
    pub fn add_typename(&mut self, tn: &str) -> (r: u64)
        requires
            ctx_size(old(self)@) + 1 < u64::MAX,
        ensures
            (final(self)@, r) == spec_add_typename(old(self)@, tn@),
            ctx_size(final(self)@) == ctx_size(old(self)@) + 1,
    {
        self.0.add_typename_in(String::from_str(tn))
    }
}

/// A variable added to the top layer.
pub open spec fn spec_add_variable(c: CtxV, symbol: Seq<char>, kind: KindV) -> (CtxV, u64) {
    (CtxV { gamma: c.gamma.push(EntryV { symbol, kind }), ..c }, c.gamma.len() as u64)
}

impl Context {
    fn typename_of(&self, tid: u64) -> (r: Option<String>)
        ensures
            match r {
                Some(n) => spec_typename(self@, tid as int) == Some(n@),
                None => spec_typename(self@, tid as int) is None,
            },
        decreases self,
    {
        proof { reveal_with_fuel(ctx_view, 1); }
        if tid < self.names.len() as u64 {
            Some(self.names[tid as usize].clone())
        } else {
            match &self.parent {
                Some(p) => p.typename_of(tid),
                None => None,
            }
        }
    }

    fn varname_of(&self, vid: u64) -> (r: Option<String>)
        ensures
            match r {
                Some(n) => spec_varname(self@, vid as int) == Some(n@),
                None => spec_varname(self@, vid as int) is None,
            },
        decreases self,
    {
        proof {
            reveal_with_fuel(ctx_view, 1);
            lemma_entries_view(self.gamma@);
        }
        let l = self.gamma.len() as u64;
        if vid < l {
            Some(self.gamma[vid as usize].symbol.clone())
        } else {
            match &self.parent {
                Some(p) => p.varname_of(vid - l),
                None => None,
            }
        }
    }
}

impl ContextPtr {
    /// The name of type constant `tid`.
    pub fn get_typename(&self, tid: u64) -> (r: Option<String>)
        ensures
            match r {
                Some(n) => spec_typename(self@, tid as int) == Some(n@),
                None => spec_typename(self@, tid as int) is None,
            },
    {
        self.0.typename_of(tid)
    }

    /// The name of variable `var_id`.
    pub fn get_varname(&self, var_id: u64) -> (r: Option<String>)
        ensures
            match r {
                Some(n) => spec_varname(self@, var_id as int) == Some(n@),
                None => spec_varname(self@, var_id as int) is None,
            },
    {
        self.0.varname_of(var_id)
    }

    /// The kind of variable `var` of the top layer.
    pub fn get_varkind(&self, var: u64) -> (r: Option<TypeKind>)
        ensures
            match r {
                Some(k) => var < self@.gamma.len() && k@ == self@.gamma[var as int].kind,
                None => var >= self@.gamma.len(),
            },
    {
        proof {
            reveal_with_fuel(ctx_view, 1);
            lemma_entries_view(self.0.gamma@);
        }
        if var < self.0.gamma.len() as u64 {
            Some(self.0.gamma[var as usize].kind.copy())
        } else {
            None
        }
    }

    /// Declares a variable in the top layer; the result is its number there.
    pub fn add_variable(&mut self, symbol: &str, kind: TypeKind) -> (r: u64)
        ensures
            (final(self)@, r) == spec_add_variable(old(self)@, symbol@, kind@),
            ctx_size(final(self)@) == ctx_size(old(self)@) + 1,
    {
        proof {
            reveal_with_fuel(ctx_view, 1);
            lemma_entries_view(self.0.gamma@);
        }
        let idx = self.0.gamma.len() as u64;
        let e = ContextEntry { symbol: String::from_str(symbol), kind };
        let ghost g0 = self.0.gamma@;
        self.0.gamma.push(e);
        proof {
            reveal_with_fuel(ctx_view, 1);
            assert(entries_view(self.0.gamma@) =~= entries_view(g0).push(e@)) by {
                assert(self.0.gamma@.subrange(0, g0.len() as int) =~= g0);
            }
        }
        idx
    }

    /// Binds variable `var` to `val` in the top layer.
    pub fn bind(&mut self, var: u64, val: TypeTerm) -> (r: Result<(), SubstError>)
        ensures
            final(self)@ == (CtxV { sigma: old(self)@.sigma.insert(var, val@), ..old(self)@ }),
            r is Ok,
    {
        proof { reveal_with_fuel(ctx_view, 1); }
        let ghost s0 = subst_view(self.0.sigma);
        self.0.sigma.insert(var, val);
        proof {
            reveal_with_fuel(ctx_view, 1);
            assert(subst_view(self.0.sigma) =~= s0.insert(var, val@));
        }
        Ok(())
    }

    /// Enters a new empty layer on top; the current context becomes its parent.
    pub fn enter_scope(&mut self)
        requires
            old(self)@.sub_count < u64::MAX,
        ensures
            final(self)@ == spec_enter(old(self)@),
            ctx_size(final(self)@) == ctx_size(old(self)@),
    {
        proof { reveal_with_fuel(ctx_view, 1); }
        let ghost c0 = self@;
        let mut name: Vec<char> = chars_of(self.0.ctxname.as_str());
        name.push('+');
        let k = self.0.sub_count + 1;
        push_u64(&mut name, k);
        let mut cur = Context {
            ctxname: string_from_chars(&name),
            sub_count: 0,
            parent: None,
            names: Vec::new(),
            gamma: Vec::new(),
            sigma: HashMap::new(),
        };
        std::mem::swap(&mut cur, &mut self.0);
        assert(cur@ == c0);
        cur.sub_count = k;
        proof { reveal_with_fuel(ctx_view, 1); }
        assert(cur@ == (CtxV { sub_count: k, ..c0 }));
        self.0.parent = Some(Box::new(cur));
        proof {
            reveal_with_fuel(ctx_view, 2);
            assert(strings_view(self.0.names@) =~= Seq::<Seq<char>>::empty());
            assert(entries_view(self.0.gamma@) =~= Seq::<EntryV>::empty());
            assert(subst_view(self.0.sigma) =~= Map::<u64, TermV>::empty());
            assert(self.0.ctxname@ =~= c0.name + seq!['+'] + spec_nat_str(k as nat));
            assert(ctx_size(CtxV { sub_count: k, ..c0 }) == ctx_size(c0));
            assert(self@ == spec_enter(c0));
        }
    }

    /// Leaves the top layer: the parent becomes the context.
    pub fn leave_scope(&mut self)
        requires
            old(self)@.parent is Some,
        ensures
            final(self)@ == *old(self)@.parent.unwrap(),
    {
        proof { reveal_with_fuel(ctx_view, 1); }
        let mut par: Option<Box<Context>> = None;
        std::mem::swap(&mut par, &mut self.0.parent);
        match par {
            Some(p) => {
                self.0 = *p;
            },
            None => {},
        }
    }
}

/// A copy of a list of strings.
fn copy_strings(v: &Vec<String>) -> (r: Vec<String>)
    ensures
        strings_view(r@) == strings_view(v@),
{
    let mut r: Vec<String> = Vec::new();
    let mut i: usize = 0;
    while i < v.len()
        invariant
            i <= v.len(),
            strings_view(r@) == strings_view(v@).subrange(0, i as int),
        decreases v.len() - i,
    {
        let x = v[i].clone();
        proof { lemma_strings_view_push(r@, x); }
        r.push(x);
        i += 1;
        assert(strings_view(r@) =~= strings_view(v@).subrange(0, i as int));
    }
    assert(strings_view(v@).subrange(0, v.len() as int) =~= strings_view(v@));
    r
}

impl Context {
    /// A copy of this context, with copies of its parents.
    pub fn copy(&self) -> (r: Context)
        ensures
            r@ == self@,
        decreases self,
    {
        proof { reveal_with_fuel(ctx_view, 1); }
        let parent = match &self.parent {
            Some(p) => Some(Box::new(p.copy())),
            None => None,
        };
        let r = Context {
            ctxname: self.ctxname.clone(),
            sub_count: self.sub_count,
            parent,
            names: copy_strings(&self.names),
            gamma: crate::term::copy_entries(&self.gamma),
            sigma: crate::constraint_system::copy_subst(&self.sigma),
        };
        proof { reveal_with_fuel(ctx_view, 1); }
        r
    }
}

impl ContextPtr {
    /// A copy of this context.
    pub fn copy(&self) -> (r: ContextPtr)
        ensures
            r@ == self@,
    {
        ContextPtr(self.0.copy())
    }

    /// Replaces the variables of the top layer.
    pub fn set_gamma(&mut self, gamma: Vec<ContextEntry>)
        ensures
            final(self)@ == (CtxV { gamma: entries_view(gamma@), ..old(self)@ }),
    {
        proof { reveal_with_fuel(ctx_view, 1); }
        self.0.gamma = gamma;
        proof { reveal_with_fuel(ctx_view, 1); }
    }
}

/// The term that a context binds variable `v` to: a binding of the top layer, or what
/// the parent binds to `v` shifted past the variables of the top layer.
pub open spec fn ctx_lookup(c: CtxV, v: u64) -> Option<TermV>
    decreases c,
{
    if c.sigma.contains_key(v) {
        Some(c.sigma[v])
    } else if v >= c.gamma.len() {
        match c.parent {
            Some(p) => ctx_lookup(*p, (v - c.gamma.len()) as u64),
            None => None,
        }
    } else {
        None
    }
}

/// The bindings of a context, as a substitution.
pub open spec fn ctx_subst(c: CtxV) -> Map<u64, TermV> {
    Map::new(|v: u64| ctx_lookup(c, v) is Some, |v: u64| ctx_lookup(c, v).unwrap())
}

impl Context {
    /// The term bound to variable `v`; an unbound variable of the top layer is
    /// unassigned, one past all layers invalid.
    fn lookup(&self, v: u64) -> (r: Result<TypeTerm, SubstError>)
        ensures
            match r {
                Ok(t) => ctx_lookup(self@, v) == Some(t@),
                Err(_) => ctx_lookup(self@, v) is None,
            },
        decreases self,
    {
        broadcast use vstd::std_specs::hash::group_hash_axioms;
        proof {
            reveal_with_fuel(ctx_view, 1);
            lemma_entries_view(self.gamma@);
        }
        let l = self.gamma.len() as u64;
        match self.sigma.get(&v) {
            Some(t) => Ok(t.copy()),
            None => {
                if v >= l {
                    match &self.parent {
                        Some(p) => p.lookup(v - l),
                        None => Err(SubstError::InvalidVariable),
                    }
                } else {
                    Err(SubstError::UnassignedVariable)
                }
            },
        }
    }
}

impl Substitution for ContextPtr {
    open spec fn subst_map(&self) -> Map<u64, TermV> {
        ctx_subst(self@)
    }

    fn get(&self, v: u64) -> (r: Result<TypeTerm, SubstError>) {
        self.0.lookup(v)
    }
}

//------------------------------------------------------------------
// Laws
//------------------------------------------------------------------

/// Type names are kept in the root layer: every layer above it has none.
pub open spec fn ctx_wf(c: CtxV) -> bool
    decreases c,
{
    match c.parent {
        Some(p) => c.names.len() == 0 && ctx_wf(*p),
        None => true,
    }
}

/// A new root context is well formed, and entering a scope, adding a type name or a
/// variable, and binding a variable keep a context well formed; leaving a scope gives a
/// well-formed context back.
pub proof fn law_ctx_wf_kept(c: CtxV, tn: Seq<char>, k: KindV, v: u64, t: TermV)
    requires
        ctx_wf(c),
    ensures
        ctx_wf(spec_enter(c)),
        ctx_wf(spec_add_typename(c, tn).0),
        ctx_wf(spec_add_variable(c, tn, k).0),
        ctx_wf(CtxV { sigma: c.sigma.insert(v, t), ..c }),
        c.parent matches Some(p) ==> ctx_wf(*p),
    decreases c,
{
    assert(ctx_wf(CtxV { sub_count: (c.sub_count + 1) as u64, ..c }));
    match c.parent {
        Some(p) => {
            law_ctx_wf_kept(*p, tn, k, v, t);
        },
        None => {},
    }
}

/// What a type name added to a context is found under: a name that the context did not
/// know is then known as the new type constant, and that constant's name is the name.
pub proof fn law_add_typename_then_lookup(c: CtxV, tn: Seq<char>)
    requires
        ctx_wf(c),
        spec_typeid(c, tn) is None,
        ctx_size(c) + 1 < u64::MAX,
    ensures
        spec_typeid(spec_add_typename(c, tn).0, tn) == Some(TypeID::Fun(spec_add_typename(c, tn).1)),
        spec_typename(spec_add_typename(c, tn).0, spec_add_typename(c, tn).1 as int) == Some(tn),
    decreases c,
{
    lemma_first_entry(c.gamma, tn);
    lemma_first_name(c.names, tn);
    match c.parent {
        Some(p) => {
            law_add_typename_then_lookup(*p, tn);
            lemma_add_typename_bound(*p, tn);
        },
        None => {
            let n2 = c.names.push(tn);
            assert(n2.drop_last() =~= c.names);
            lemma_first_name(n2, tn);
        },
    }
}

/// The number that a new type name gets is below the new size of the context.
proof fn lemma_add_typename_bound(c: CtxV, tn: Seq<char>)
    ensures
        spec_add_typename(c, tn).1 < ctx_size(c) + 1 || ctx_size(c) + 1 >= u64::MAX,
        ctx_size(spec_add_typename(c, tn).0) == ctx_size(c) + 1,
        spec_add_typename(c, tn).0.gamma == c.gamma,
        spec_add_typename(c, tn).0.names.len() >= c.names.len(),
    decreases c,
{
    match c.parent {
        Some(p) => {
            lemma_add_typename_bound(*p, tn);
        },
        None => {},
    }
}

/// What a variable added to a context is found under: a symbol that names no variable
/// of the top layer is then known as the new variable, and the variable's name is the
/// symbol.
pub proof fn law_add_variable_then_lookup(c: CtxV, sym: Seq<char>, k: KindV)
    requires
        first_entry(c.gamma, sym) is None,
        c.gamma.len() < u64::MAX,
    ensures
        spec_typeid(spec_add_variable(c, sym, k).0, sym) == Some(TypeID::Var(spec_add_variable(c, sym, k).1)),
        spec_varname(spec_add_variable(c, sym, k).0, spec_add_variable(c, sym, k).1 as int) == Some(sym),
{
    let g2 = c.gamma.push(EntryV { symbol: sym, kind: k });
    assert(g2.drop_last() =~= c.gamma);
    lemma_first_entry(g2, sym);
}

/// Entering a scope and leaving it gives back the context, with its count of sub-scopes
/// raised by one.
pub proof fn law_enter_then_leave(c: CtxV)
    ensures
        spec_enter(c).parent == Some(Box::new(CtxV { sub_count: (c.sub_count + 1) as u64, ..c })),
{
}

//------------------------------------------------------------------
// Layers: fresh names and shifted variables
//------------------------------------------------------------------

/// The greatest length of the names in a list.
pub open spec fn max_name_len(n: Seq<Seq<char>>) -> nat
    decreases n.len(),
{
    if n.len() == 0 {
        0
    } else {
        let m = max_name_len(n.drop_last());
        if n.last().len() > m { n.last().len() } else { m }
    }
}

/// The greatest length of the symbols of a list of variables.
pub open spec fn max_symbol_len(g: Seq<EntryV>) -> nat
    decreases g.len(),
{
    if g.len() == 0 {
        0
    } else {
        let m = max_symbol_len(g.drop_last());
        if g.last().symbol.len() > m { g.last().symbol.len() } else { m }
    }
}

/// The greatest length of a name or a variable's symbol in any layer of a context.
pub open spec fn ctx_max_len(c: CtxV) -> nat
    decreases c,
{
    let here = if max_name_len(c.names) > max_symbol_len(c.gamma) { max_name_len(c.names) } else { max_symbol_len(c.gamma) };
    match c.parent {
        Some(p) => if ctx_max_len(*p) > here { ctx_max_len(*p) } else { here },
        None => here,
    }
}

proof fn lemma_max_name_len(n: Seq<Seq<char>>, i: int)
    requires
        0 <= i < n.len(),
    ensures
        n[i].len() <= max_name_len(n),
    decreases n.len(),
{
    if i < n.len() - 1 {
        lemma_max_name_len(n.drop_last(), i);
    }
}

proof fn lemma_max_symbol_len(g: Seq<EntryV>, i: int)
    requires
        0 <= i < g.len(),
    ensures
        g[i].symbol.len() <= max_symbol_len(g),
    decreases g.len(),
{
    if i < g.len() - 1 {
        lemma_max_symbol_len(g.drop_last(), i);
    }
}

/// A name that a context knows is no longer than its longest name.
pub proof fn lemma_known_name_len(c: CtxV, s: Seq<char>)
    requires
        spec_typeid(c, s) is Some,
    ensures
        s.len() <= ctx_max_len(c),
    decreases c,
{
    lemma_first_entry(c.gamma, s);
    lemma_first_name(c.names, s);
    match first_entry(c.gamma, s) {
        Some(i) => lemma_max_symbol_len(c.gamma, i),
        None => match first_name(c.names, s) {
            Some(i) => lemma_max_name_len(c.names, i),
            None => match c.parent {
                Some(p) => lemma_known_name_len(*p, s),
                None => {},
            },
        },
    }
}

/// `s`, with primes appended until the context knows no such name.
pub open spec fn spec_fresh_name(c: CtxV, s: Seq<char>) -> Seq<char>
    decreases ctx_max_len(c) + 1 - s.len(),
{
    if spec_typeid(c, s) is Some {
        proof { lemma_known_name_len(c, s); }
        spec_fresh_name(c, s.push('\''))
    } else {
        s
    }
}

/// The context with the variables `es` added to its top layer, each under a name that
/// the context did not know yet.
pub open spec fn spec_shift_vars(c: CtxV, es: Seq<EntryV>) -> CtxV
    decreases es.len(),
{
    if es.len() == 0 {
        c
    } else {
        let c0 = spec_shift_vars(c, es.drop_last());
        spec_add_variable(c0, spec_fresh_name(c0, es.last().symbol), es.last().kind).0
    }
}

/// The substitution that maps the `n` variables of another context to those added
/// after the `l` variables of the top layer.
pub open spec fn spec_shift_subst(l: nat, n: nat) -> Map<u64, TermV> {
    Map::new(|i: u64| i < n, |i: u64| TermV::Var((i + l) as u64))
}

proof fn lemma_shift_vars_size(c: CtxV, es: Seq<EntryV>)
    ensures
        ctx_size(spec_shift_vars(c, es)) == ctx_size(c) + es.len(),
        spec_shift_vars(c, es).gamma.len() == c.gamma.len() + es.len(),
        spec_shift_vars(c, es).names == c.names,
        spec_shift_vars(c, es).parent == c.parent,
        spec_shift_vars(c, es).sigma == c.sigma,
        spec_shift_vars(c, es).name == c.name,
        spec_shift_vars(c, es).sub_count == c.sub_count,
        spec_shift_vars(c, es).gamma.subrange(0, c.gamma.len() as int) == c.gamma,
    decreases es.len(),
{
    if es.len() > 0 {
        lemma_shift_vars_size(c, es.drop_last());
        let c0 = spec_shift_vars(c, es.drop_last());
        assert(c0.gamma.push(EntryV { symbol: spec_fresh_name(c0, es.last().symbol), kind: es.last().kind }).subrange(0, c.gamma.len() as int)
            =~= c0.gamma.subrange(0, c.gamma.len() as int));
    }
}

impl ContextPtr {
    /// `s` with primes appended until the context knows no such name.
    fn fresh_name(&self, s: &String) -> (r: String)
        requires
            ctx_size(self@) < u64::MAX,
        ensures
            r@ == spec_fresh_name(self@, s@),
    {
        let mut v: Vec<char> = chars_of(s.as_str());
        let mut cur = string_from_chars(&v);
        loop
            invariant
                ctx_size(self@) < u64::MAX,
                cur@ == v@,
                spec_fresh_name(self@, v@) == spec_fresh_name(self@, s@),
            decreases ctx_max_len(self@) + 1 - v@.len(),
        {
            match self.get_typeid(cur.as_str()) {
                Some(_) => {
                    proof { lemma_known_name_len(self@, v@); }
                    v.push('\'');
                    cur = string_from_chars(&v);
                },
                None => {
                    return cur;
                },
            }
        }
    }

    /// Declares the variables of `other`'s top layer in this top layer, each under a name
    /// that this context did not know yet (primes appended), and gives the substitution
    /// that maps the variables of `other` to the new ones.
    pub fn shift_variables(&mut self, other: &ContextPtr) -> (r: HashMapSubst)
        requires
            ctx_size(old(self)@) + other@.gamma.len() < u64::MAX,
        ensures
            final(self)@ == spec_shift_vars(old(self)@, other@.gamma),
            subst_view(r) == spec_shift_subst(old(self)@.gamma.len(), other@.gamma.len()),
    {
        broadcast use vstd::std_specs::hash::group_hash_axioms;
        proof {
            reveal_with_fuel(ctx_view, 1);
            lemma_entries_view(self.0.gamma@);
            lemma_entries_view(other.0.gamma@);
        }
        let ghost c0 = self@;
        let ghost es = other@.gamma;
        let l = self.0.gamma.len() as u64;
        let mut sigma: HashMapSubst = HashMap::new();
        let mut i: usize = 0;
        assert(es.subrange(0, 0) =~= Seq::<EntryV>::empty());
        while i < other.0.gamma.len()
            invariant
                i <= other.0.gamma.len(),
                es == other@.gamma,
                es.len() == other.0.gamma.len(),
                forall|j: int| 0 <= j < es.len() ==> #[trigger] es[j] == other.0.gamma@[j]@,
                l == c0.gamma.len(),
                ctx_size(c0) + es.len() < u64::MAX,
                self@ == spec_shift_vars(c0, es.subrange(0, i as int)),
                subst_view(sigma) == spec_shift_subst(l as nat, i as nat),
            decreases other.0.gamma.len() - i,
        {
            proof {
                lemma_shift_vars_size(c0, es.subrange(0, i as int));
                assert(es.subrange(0, i + 1).drop_last() =~= es.subrange(0, i as int));
                assert(es.subrange(0, i + 1).last() == es[i as int]);
            }
            let name = self.fresh_name(&other.0.gamma[i].symbol);
            let kind = other.0.gamma[i].kind.copy();
            self.add_variable(name.as_str(), kind);
            let iu = i as u64;
            let ghost s0 = subst_view(sigma);
            assert(iu + l < u64::MAX);
            let ghost m0 = sigma@;
            let tv = TypeTerm::Var(iu + l);
            sigma.insert(iu, tv);
            proof {
                assert(sigma@ == m0.insert(iu, tv));
                assert(subst_view(sigma) =~= s0.insert(iu, TermV::Var((iu + l) as u64)));
                assert(s0.insert(iu, TermV::Var((iu + l) as u64)) =~= spec_shift_subst(l as nat, (i + 1) as nat));
            }
            i += 1;
        }
        assert(es.subrange(0, es.len() as int) =~= es);
        sigma
    }

    /// The substitution that maps each variable of the parent layers to the same
    /// variable seen from this layer: shifted past the variables of this layer.
    pub fn shift_from_parent(&self) -> (r: HashMapSubst)
        requires
            ctx_n_variables(self@) <= u64::MAX,
        ensures
            subst_view(r) == match self@.parent {
                Some(p) => spec_shift_subst(self@.gamma.len(), ctx_n_variables(*p)),
                None => Map::empty(),
            },
    {
        broadcast use vstd::std_specs::hash::group_hash_axioms;
        proof {
            reveal_with_fuel(ctx_view, 1);
            lemma_entries_view(self.0.gamma@);
        }
        let mut sigma: HashMapSubst = HashMap::new();
        let l = self.0.gamma.len() as u64;
        match &self.0.parent {
            Some(p) => {
                let n = p.n_variables();
                let mut i: u64 = 0;
                assert(subst_view(sigma) =~= spec_shift_subst(l as nat, 0));
                while i < n
                    invariant
                        i <= n,
                        l + n <= u64::MAX,
                        subst_view(sigma) == spec_shift_subst(l as nat, i as nat),
                    decreases n - i,
                {
                    let ghost s0 = subst_view(sigma);
                    let ghost m0 = sigma@;
                    let tv = TypeTerm::Var(l + i);
                    sigma.insert(i, tv);
                    proof {
                        assert(sigma@ == m0.insert(i, tv));
                        assert(subst_view(sigma) =~= s0.insert(i, TermV::Var((l + i) as u64)));
                        assert(s0.insert(i, TermV::Var((l + i) as u64)) =~= spec_shift_subst(l as nat, (i + 1) as nat));
                    }
                    i += 1;
                }
                sigma
            },
            None => {
                assert(subst_view(sigma) =~= Map::<u64, TermV>::empty());
                sigma
            },
        }
    }

    /// The variables declared in the top layer.
    pub fn get_gamma(&self) -> (r: Vec<ContextEntry>)
        ensures
            entries_view(r@) == self@.gamma,
    {
        proof { reveal_with_fuel(ctx_view, 1); }
        crate::term::copy_entries(&self.0.gamma)
    }

    /// Whether two contexts hold the same layers (see `Context::eq`).
    pub fn eq(&self, other: &ContextPtr) -> (r: bool)
        ensures
            r == spec_ctx_eq(self@, other@),
    {
        self.0.eq(&other.0)
    }

    /// The parent layers, if any.
    pub fn get_parent(&self) -> (r: Option<ContextPtr>)
        ensures
            match (r, self@.parent) {
                (Some(p), Some(q)) => p@ == *q,
                (None, None) => true,
                _ => false,
            },
    {
        proof { reveal_with_fuel(ctx_view, 1); }
        match &self.0.parent {
            Some(p) => Some(ContextPtr(p.copy())),
            None => None,
        }
    }

    /// The bindings of the top layer.
    pub fn get_sigma(&self) -> (r: &HashMapSubst)
        ensures
            subst_view(*r) == self@.sigma,
    {
        proof { reveal_with_fuel(ctx_view, 1); }
        &self.0.sigma
    }

    /// Whether a new scope can still be counted.
    pub fn can_scope(&self) -> (r: bool)
        ensures
            r == (self@.sub_count < u64::MAX),
    {
        proof { reveal_with_fuel(ctx_view, 1); }
        self.0.sub_count < u64::MAX
    }

    /// A new scope of this context: this context counts one more sub-scope, and the
    /// result is an empty layer named after it with a copy of it as parent.
    pub fn scope(&mut self) -> (r: ContextPtr)
        requires
            old(self)@.sub_count < u64::MAX,
        ensures
            r@ == spec_enter(old(self)@),
            final(self)@ == (CtxV { sub_count: (old(self)@.sub_count + 1) as u64, ..old(self)@ }),
    {
        let mut child = self.copy();
        child.enter_scope();
        proof { reveal_with_fuel(ctx_view, 1); }
        self.0.sub_count = self.0.sub_count + 1;
        proof { reveal_with_fuel(ctx_view, 1); }
        child
    }
}

impl ContextPtr {
    /// Binds each variable of `s` to its term in the top layer, as `bind` does one by one.
    pub fn bind_all(&mut self, s: &HashMapSubst)
        ensures
            final(self)@ == (CtxV { sigma: old(self)@.sigma.union_prefer_right(subst_view(*s)), ..old(self)@ }),
    {
        proof { reveal_with_fuel(ctx_view, 1); }
        crate::instance::append_subst(&mut self.0.sigma, s);
        proof { reveal_with_fuel(ctx_view, 1); }
    }
}

} // verus!
