//! Type dictionaries: the names of type constants and type variables.

use vstd::prelude::*;
use vstd::string::StringExecFns;
use crate::term::TypeKind;

verus! {

/// The identifier of a named type: a type constant (`Fun`) or a type variable (`Var`).
#[derive(PartialEq, Eq, Structural, Clone, Copy, Debug, Hash)]
pub enum TypeID {
    Fun(u64),
    Var(u64),
}

/// The map that a list of pairs stands for: a later pair overrides an earlier one
/// with the same key.
pub open spec fn names_map(s: Seq<(String, TypeID)>) -> Map<Seq<char>, TypeID>
    decreases s.len(),
{
    if s.len() == 0 {
        Map::empty()
    } else {
        names_map(s.drop_last()).insert(s.last().0@, s.last().1)
    }
}

/// The map that a list of pairs stands for, from identifiers to names.
pub open spec fn ids_map(s: Seq<(TypeID, String)>) -> Map<TypeID, Seq<char>>
    decreases s.len(),
{
    if s.len() == 0 {
        Map::empty()
    } else {
        ids_map(s.drop_last()).insert(s.last().0, s.last().1@)
    }
}

/// A bidirectional map between names and type identifiers.
#[derive(Debug)]
pub struct Bimap {
    forward: Vec<(String, TypeID)>,
    backward: Vec<(TypeID, String)>,
}

/// Model of a bimap: the map from names and the map from identifiers.
pub struct BimapV {
    pub by_name: Map<Seq<char>, TypeID>,
    pub by_id: Map<TypeID, Seq<char>>,
}

impl View for Bimap {
    type V = BimapV;

    closed spec fn view(&self) -> BimapV {
        BimapV { by_name: names_map(self.forward@), by_id: ids_map(self.backward@) }
    }
}

impl Bimap {
    /// An empty bimap.
    pub fn new() -> (r: Bimap)
        ensures
            r@.by_name == Map::<Seq<char>, TypeID>::empty(),
            r@.by_id == Map::<TypeID, Seq<char>>::empty(),
    {
        Bimap { forward: Vec::new(), backward: Vec::new() }
    }

    /// Maps `y` to `l` and `l` to `y`.
    pub fn insert(&mut self, y: String, l: TypeID)
        ensures
            final(self)@.by_name == old(self)@.by_name.insert(y@, l),
            final(self)@.by_id == old(self)@.by_id.insert(l, y@),
    {
        let ghost f0 = self.forward@;
        let ghost b0 = self.backward@;
        self.forward.push((y.clone(), l));
        self.backward.push((l, y));
        assert(self.forward@.drop_last() =~= f0);
        assert(self.backward@.drop_last() =~= b0);
    }

    /// The identifier that a name is mapped to.
    pub fn get_by_name(&self, y: &str) -> (r: Option<TypeID>)
        ensures
            r == (if self@.by_name.contains_key(y@) { Some(self@.by_name[y@]) } else { None }),
    {
        let ys = String::from_str(y);
        let mut i: usize = self.forward.len();
        while i > 0
            invariant
                i <= self.forward.len(),
                ys@ == y@,
                forall|j: int| i <= j < self.forward.len() ==> (#[trigger] self.forward@[j]).0@ != y@,
            decreases i,
        {
            if self.forward[i - 1].0 == ys {
                proof {
                    lemma_names_suffix(self.forward@, i as int, y@);
                    assert(self.forward@.subrange(0, i as int).drop_last() =~= self.forward@.subrange(0, i - 1));
                }
                return Some(self.forward[i - 1].1);
            }
            i -= 1;
        }
        proof {
            lemma_names_suffix(self.forward@, 0, y@);
            assert(self.forward@.subrange(0, 0) =~= Seq::<(String, TypeID)>::empty());
        }
        None
    }

    /// The name that an identifier is mapped to.
    pub fn get_by_id(&self, l: TypeID) -> (r: Option<String>)
        ensures
            match r {
                Some(n) => self@.by_id.contains_key(l) && self@.by_id[l] == n@,
                None => !self@.by_id.contains_key(l),
            },
    {
        let mut i: usize = self.backward.len();
        while i > 0
            invariant
                i <= self.backward.len(),
                forall|j: int| i <= j < self.backward.len() ==> (#[trigger] self.backward@[j]).0 != l,
            decreases i,
        {
            if self.backward[i - 1].0 == l {
                proof {
                    lemma_ids_suffix(self.backward@, i as int, l);
                    assert(self.backward@.subrange(0, i as int).drop_last() =~= self.backward@.subrange(0, i - 1));
                }
                return Some(self.backward[i - 1].1.clone());
            }
            i -= 1;
        }
        proof {
            lemma_ids_suffix(self.backward@, 0, l);
            assert(self.backward@.subrange(0, 0) =~= Seq::<(TypeID, String)>::empty());
        }
        None
    }
}

/// Pairs after index `i` whose key is not `y` do not change what `y` is mapped to.
proof fn lemma_names_suffix(s: Seq<(String, TypeID)>, i: int, y: Seq<char>)
    requires
        0 <= i <= s.len(),
        forall|j: int| i <= j < s.len() ==> (#[trigger] s[j]).0@ != y,
    ensures
        names_map(s).contains_key(y) == names_map(s.subrange(0, i)).contains_key(y),
        names_map(s).contains_key(y) ==> names_map(s)[y] == names_map(s.subrange(0, i))[y],
    decreases s.len(),
{
    if s.len() == i {
        assert(s.subrange(0, i) =~= s);
    } else {
        assert(s.drop_last().subrange(0, i) =~= s.subrange(0, i));
        assert(s.last() == s[s.len() - 1]);
        lemma_names_suffix(s.drop_last(), i, y);
    }
}

/// Pairs after index `i` whose key is not `l` do not change what `l` is mapped to.
proof fn lemma_ids_suffix(s: Seq<(TypeID, String)>, i: int, l: TypeID)
    requires
        0 <= i <= s.len(),
        forall|j: int| i <= j < s.len() ==> (#[trigger] s[j]).0 != l,
    ensures
        ids_map(s).contains_key(l) == ids_map(s.subrange(0, i)).contains_key(l),
        ids_map(s).contains_key(l) ==> ids_map(s)[l] == ids_map(s.subrange(0, i))[l],
    decreases s.len(),
{
    if s.len() == i {
        assert(s.subrange(0, i) =~= s);
    } else {
        assert(s.drop_last().subrange(0, i) =~= s.subrange(0, i));
        assert(s.last() == s[s.len() - 1]);
        lemma_ids_suffix(s.drop_last(), i, l);
    }
}

/// A dictionary of type names: constants and variables by name and by identifier.
pub trait TypeDict {
    /// What each name is mapped to.
    spec fn spec_by_name(&self) -> Map<Seq<char>, TypeID>;

    /// What each identifier is mapped to.
    spec fn spec_by_id(&self) -> Map<TypeID, Seq<char>>;

    /// Whether one more type constant can be added.
    spec fn spec_can_add(&self) -> bool;

    /// Adds a type constant; the result is its number.
    fn add_typename(&mut self, tn: &str) -> (r: u64)
        requires
            old(self).spec_can_add(),
        ensures
            final(self).spec_by_name() == old(self).spec_by_name().insert(tn@, TypeID::Fun(r)),
            final(self).spec_by_id() == old(self).spec_by_id().insert(TypeID::Fun(r), tn@),
    ;

    /// The identifier of a name.
    fn get_typeid(&self, tn: &str) -> (r: Option<TypeID>)
        ensures
            r == (if self.spec_by_name().contains_key(tn@) { Some(self.spec_by_name()[tn@]) } else { None }),
    ;

    /// The name of type constant `tid`.
    fn get_typename(&self, tid: u64) -> (r: Option<String>)
        ensures
            match r {
                Some(n) => self.spec_by_id().contains_key(TypeID::Fun(tid)) && self.spec_by_id()[TypeID::Fun(tid)] == n@,
                None => !self.spec_by_id().contains_key(TypeID::Fun(tid)),
            },
    ;

    /// The name of type variable `var_id`.
    fn get_varname(&self, var_id: u64) -> (r: Option<String>)
        ensures
            match r {
                Some(n) => self.spec_by_id().contains_key(TypeID::Var(var_id)) && self.spec_by_id()[TypeID::Var(var_id)] == n@,
                None => !self.spec_by_id().contains_key(TypeID::Var(var_id)),
            },
    ;

    /// The kind of type variable `var_id`, where the dictionary knows it.
    fn get_varkind(&self, var_id: u64) -> (r: Option<TypeKind>);

    /// The name of an identifier.
    fn get_name(&self, id: TypeID) -> (r: Option<String>)
        ensures
            match r {
                Some(n) => self.spec_by_id().contains_key(id) && self.spec_by_id()[id] == n@,
                None => !self.spec_by_id().contains_key(id),
            },
    {
        match id {
            TypeID::Fun(i) => self.get_typename(i),
            TypeID::Var(i) => self.get_varname(i),
        }
    }

    /// The number of the type variable with the given name.
    fn get_varid(&self, varname: &str) -> (r: Option<u64>)
        ensures
            r == (if self.spec_by_name().contains_key(varname@) {
                match self.spec_by_name()[varname@] {
                    TypeID::Var(i) => Some(i),
                    TypeID::Fun(_) => None,
                }
            } else {
                None
            }),
    {
        match self.get_typeid(varname) {
            Some(TypeID::Var(id)) => Some(id),
            _ => None,
        }
    }

    /// The identifier of a name; a new type constant where the name is not known yet.
    fn get_typeid_creat(&mut self, tn: &str) -> (r: TypeID)
        requires
            old(self).spec_can_add(),
        ensures
            old(self).spec_by_name().contains_key(tn@) ==> r == old(self).spec_by_name()[tn@]
                && final(self).spec_by_name() == old(self).spec_by_name()
                && final(self).spec_by_id() == old(self).spec_by_id(),
            !old(self).spec_by_name().contains_key(tn@) ==> r is Fun
                && final(self).spec_by_name() == old(self).spec_by_name().insert(tn@, r)
                && final(self).spec_by_id() == old(self).spec_by_id().insert(r, tn@),
    {
        match self.get_typeid(tn) {
            Some(id) => id,
            None => TypeID::Fun(self.add_typename(tn)),
        }
    }
}

/// A type dictionary on a bimap, with counters for new constants and variables.
#[derive(Debug)]
pub struct BimapTypeDict {
    typenames: Bimap,
    type_lit_counter: u64,
    type_var_counter: u64,
}

impl BimapTypeDict {
    /// The number the next type constant gets.
    pub closed spec fn lit_counter(&self) -> u64 {
        self.type_lit_counter
    }

    /// The number the next type variable gets.
    pub closed spec fn var_counter(&self) -> u64 {
        self.type_var_counter
    }

    /// An empty dictionary.
    pub fn new() -> (r: BimapTypeDict)
        ensures
            r.spec_by_name() == Map::<Seq<char>, TypeID>::empty(),
            r.spec_by_id() == Map::<TypeID, Seq<char>>::empty(),
            r.lit_counter() == 0,
            r.var_counter() == 0,
    {
        BimapTypeDict { typenames: Bimap::new(), type_lit_counter: 0, type_var_counter: 0 }
    }

    /// Maps `name` to `id` and back.
    pub fn insert(&mut self, name: &str, id: TypeID)
        ensures
            final(self).spec_by_name() == old(self).spec_by_name().insert(name@, id),
            final(self).spec_by_id() == old(self).spec_by_id().insert(id, name@),
            final(self).lit_counter() == old(self).lit_counter(),
            final(self).var_counter() == old(self).var_counter(),
    {
        self.typenames.insert(String::from_str(name), id);
    }

    /// Adds a type variable; the result is its number.
    pub fn add_varname(&mut self, tn: &str) -> (r: u64)
        requires
            old(self).var_counter() < u64::MAX,
        ensures
            r == old(self).var_counter(),
            final(self).var_counter() == r + 1,
            final(self).lit_counter() == old(self).lit_counter(),
            final(self).spec_by_name() == old(self).spec_by_name().insert(tn@, TypeID::Var(r)),
            final(self).spec_by_id() == old(self).spec_by_id().insert(TypeID::Var(r), tn@),
    {
        let tyid = self.type_var_counter;
        self.type_var_counter = self.type_var_counter + 1;
        self.insert(tn, TypeID::Var(tyid));
        tyid
    }
}

impl TypeDict for BimapTypeDict {
    closed spec fn spec_by_name(&self) -> Map<Seq<char>, TypeID> {
        self.typenames@.by_name
    }

    closed spec fn spec_by_id(&self) -> Map<TypeID, Seq<char>> {
        self.typenames@.by_id
    }

    closed spec fn spec_can_add(&self) -> bool {
        self.type_lit_counter < u64::MAX
    }

    fn add_typename(&mut self, tn: &str) -> (r: u64)
        ensures
            r == old(self).lit_counter(),
            final(self).lit_counter() == r + 1,
    {
        let tyid = self.type_lit_counter;
        self.type_lit_counter = self.type_lit_counter + 1;
        self.insert(tn, TypeID::Fun(tyid));
        tyid
    }

    fn get_typeid(&self, tn: &str) -> (r: Option<TypeID>) {
        self.typenames.get_by_name(tn)
    }

    fn get_typename(&self, tid: u64) -> (r: Option<String>) {
        self.typenames.get_by_id(TypeID::Fun(tid))
    }

    fn get_varname(&self, var_id: u64) -> (r: Option<String>) {
        self.typenames.get_by_id(TypeID::Var(var_id))
    }

    fn get_varkind(&self, var_id: u64) -> (r: Option<TypeKind>)
        ensures
            r is None,
    {
        None
    }
}

} // verus!
