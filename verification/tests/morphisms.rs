use laddertypes::context::Context;
use laddertypes::base::{MorphismBase, DecomposedMorphismType, MorphBase};
use laddertypes::search::{MorphismGraph, GraphSearch, GraphSearchState, GraphSearchError, SearchNode, Step, est_remain};
use laddertypes::term::TypeKind;
use laddertypes::morphism::MorphismType;
use laddertypes::instance::{MorphismInstance, append_subst, SubstitutionMut};
use laddertypes::constraint_system::saturate;
use laddertypes::substitution::HashMapSubst;
use laddertypes::term::{TypeTerm, StructMember, EnumVariant, ConstraintPair};
use std::collections::HashMap;

fn id(x: u64) -> TypeTerm {
    TypeTerm::Id(x)
}

fn spec(v: Vec<TypeTerm>) -> TypeTerm {
    TypeTerm::Spec(v)
}

fn ladder(v: Vec<TypeTerm>) -> TypeTerm {
    TypeTerm::Ladder(v)
}

fn mt(src: TypeTerm, dst: TypeTerm) -> MorphismType {
    MorphismType { gamma: Vec::new(), bounds: Vec::new(), src_type: src, dst_type: dst }
}

fn prim(src: TypeTerm, dst: TypeTerm) -> MorphismInstance<MorphismType> {
    MorphismInstance::Primitive { sigmas: HashMap::new(), m: mt(src, dst) }
}

#[test]
fn strip_common_rungs_of_ladders() {
    let m = MorphismType {
        gamma: Vec::new(),
        bounds: Vec::new(),
        src_type: ladder(vec![id(0), id(1), id(2)]),
        dst_type: ladder(vec![id(0), id(1), id(3)]),
    };
    let s = m.strip_common_rungs();
    assert!(s.src_type.same(&ladder(vec![id(2)])));
    assert!(s.dst_type.same(&ladder(vec![id(3)])));
}

#[test]
fn into_morphism_type_of_arrows() {
    let m = TypeTerm::Morph(Box::new(id(0)), Box::new(id(1))).into_morphism_type().unwrap();
    assert!(m.src_type.same(&id(0)));
    assert!(m.dst_type.same(&id(1)));
    let f = TypeTerm::Func(vec![id(2), id(3)]).into_morphism_type().unwrap();
    assert!(f.src_type.same(&id(2)));
    assert!(f.dst_type.same(&id(3)));
    assert!(id(0).into_morphism_type().is_none());
}

#[test]
fn into_morphism_type_under_universal() {
    let mut dict = Context::new(0);
    let t = dict.parse("∀T T -morph-> <Seq T>").unwrap();
    let m = t.into_morphism_type().unwrap();
    assert_eq!(m.gamma.len(), 1);
    assert_eq!(m.gamma[0].symbol, "T");
    assert!(m.src_type.same(&TypeTerm::Var(0)));
    assert!(m.dst_type.same(&spec(vec![id(0), TypeTerm::Var(0)])));
}

#[test]
fn instance_identity_type_and_weight() {
    let i: MorphismInstance<MorphismType> = MorphismInstance::Id { tau: id(5) };
    let t = i.get_type();
    assert!(t.src_type.same(&id(5)));
    assert!(t.dst_type.same(&id(5)));
    assert_eq!(i.get_weight(), 0);
    assert_eq!(i.get_subst().len(), 0);
}

#[test]
fn instance_primitive_and_chain() {
    let a = prim(id(0), id(1));
    let b = prim(id(1), id(2));
    assert_eq!(a.get_weight(), 10);
    let chain = MorphismInstance::Chain { path: vec![a, b] };
    let t = chain.get_type();
    assert!(t.src_type.same(&id(0)));
    assert!(t.dst_type.same(&id(2)));
    assert_eq!(chain.get_weight(), 20);
}

#[test]
fn instance_sub_and_map_seq() {
    let sub = MorphismInstance::Sub { psi: id(9), m: Box::new(prim(id(0), id(1))) };
    let t = sub.get_type();
    assert!(t.src_type.same(&ladder(vec![id(9), id(0)])));
    assert!(t.dst_type.same(&ladder(vec![id(9), id(1)])));
    let map = MorphismInstance::MapSeq { seq_repr: None, item_morph: Box::new(prim(id(0), id(1))) };
    let t2 = map.get_type();
    assert!(t2.src_type.same(&TypeTerm::Sequence { seq_repr: None, item: Box::new(id(0)) }));
    assert!(t2.dst_type.same(&TypeTerm::Sequence { seq_repr: None, item: Box::new(id(1)) }));
    assert_eq!(map.get_weight(), 25);
}

#[test]
fn instance_map_struct_type() {
    let i = MorphismInstance::MapStruct {
        struct_repr: None,
        member_morph: vec![("x".to_string(), prim(id(0), id(1))), ("y".to_string(), MorphismInstance::Id { tau: id(2) })],
    };
    let t = i.get_type();
    let src = TypeTerm::Struct { struct_repr: None, members: vec![
        StructMember { symbol: "x".to_string(), ty: id(0) },
        StructMember { symbol: "y".to_string(), ty: id(2) },
    ] };
    let dst = TypeTerm::Struct { struct_repr: None, members: vec![
        StructMember { symbol: "x".to_string(), ty: id(1) },
        StructMember { symbol: "y".to_string(), ty: id(2) },
    ] };
    assert!(t.src_type.same(&src));
    assert!(t.dst_type.same(&dst));
    assert_eq!(i.get_weight(), 10);
}

#[test]
fn instance_substitutions_merge() {
    let mut s1: HashMapSubst = HashMap::new();
    s1.insert(0, id(1));
    let mut s2: HashMapSubst = HashMap::new();
    s2.insert(0, id(2));
    s2.insert(1, id(3));
    let chain = MorphismInstance::Chain { path: vec![
        MorphismInstance::Primitive { sigmas: s1, m: mt(id(0), id(0)) },
        MorphismInstance::Primitive { sigmas: s2, m: mt(id(0), id(0)) },
    ] };
    let s = chain.get_subst();
    assert_eq!(s.len(), 2);
    assert!(s.get(&0).unwrap().same(&id(2)));
    assert!(s.get(&1).unwrap().same(&id(3)));
}

#[test]
fn append_subst_overrides() {
    let mut a: HashMapSubst = HashMap::new();
    a.insert(0, id(1));
    a.insert(5, id(6));
    let mut b: HashMapSubst = HashMap::new();
    b.insert(0, id(2));
    append_subst(&mut a, &b);
    assert_eq!(a.len(), 2);
    assert!(a.get(&0).unwrap().same(&id(2)));
    assert!(a.get(&5).unwrap().same(&id(6)));
}

#[test]
fn instance_apply_subst() {
    let mut s: HashMapSubst = HashMap::new();
    s.insert(0, id(4));
    let mut i: MorphismInstance<MorphismType> = MorphismInstance::Sub { psi: TypeTerm::Var(0), m: Box::new(MorphismInstance::Id { tau: TypeTerm::Var(0) }) };
    i.apply_subst(&s);
    match &i {
        MorphismInstance::Sub { psi, m } => {
            assert!(psi.same(&id(4)));
            match &**m {
                MorphismInstance::Id { tau } => assert!(tau.same(&id(4))),
                _ => panic!("not an identity"),
            }
        }
        _ => panic!("not a sub instance"),
    }
}

#[test]
fn instance_from_chain() {
    let empty: Vec<MorphismInstance<MorphismType>> = Vec::new();
    match MorphismInstance::from_chain(id(3), &empty) {
        MorphismInstance::Id { tau } => assert!(tau.same(&id(3))),
        _ => panic!("not an identity"),
    }
    let one = vec![prim(id(0), id(1))];
    let r = MorphismInstance::from_chain(id(3), &one);
    assert!(r.get_type().dst_type.same(&id(1)));
    let two = vec![prim(id(0), id(1)), prim(id(1), id(2))];
    match MorphismInstance::from_chain(id(3), &two) {
        MorphismInstance::Chain { path } => assert_eq!(path.len(), 2),
        _ => panic!("not a chain"),
    }
}

#[test]
fn instance_action_type() {
    let sub = MorphismInstance::Sub { psi: id(9), m: Box::new(prim(id(0), id(1))) };
    let t = sub.get_action_type();
    assert!(t.src_type.same(&ladder(vec![id(0)])));
    assert!(t.dst_type.same(&ladder(vec![id(1)])));
}

#[test]
fn pretty_atoms() {
    let mut dict = Context::new(0);
    let a = dict.parse("A").unwrap();
    assert_eq!(a.pretty(&dict, 0), "\u{1b}[1m\u{1b}[34mA\u{1b}[0m\u{1b}[0m");
    assert_eq!(TypeTerm::Num(3).pretty(&dict, 0), "\u{1b}[1m\u{1b}[32m3\u{1b}[0m\u{1b}[0m");
    assert_eq!(TypeTerm::Var(0).pretty(&dict, 0), "\u{1b}[95m\u{1b}[91m??\u{1b}[0m\u{1b}[0m(0)");
    assert_eq!(TypeTerm::Char('\n').pretty(&dict, 0), "'\\n'");
}

#[test]
fn pretty_ladder_lines() {
    let mut dict = Context::new(0);
    let t = dict.parse("A~B").unwrap();
    let a = "\u{1b}[1m\u{1b}[34mA\u{1b}[0m\u{1b}[0m";
    let b = "\u{1b}[1m\u{1b}[34mB\u{1b}[0m\u{1b}[0m";
    let tilde = "\u{1b}[33m~ \u{1b}[0m";
    assert_eq!(t.pretty(&dict, 1), format!("{}\n    {}{}", a, tilde, b));
}

#[test]
fn pretty_member_and_bound() {
    let mut dict = Context::new(0);
    let a = dict.parse("A").unwrap();
    let aa = "\u{1b}[1m\u{1b}[34mA\u{1b}[0m\u{1b}[0m";
    let m = StructMember { symbol: "x".to_string(), ty: a.copy() };
    assert_eq!(m.pretty(&dict, 0), format!("x: {}", aa));
    let v = EnumVariant { symbol: "y".to_string(), ty: a.copy() };
    assert_eq!(v.pretty(&dict, 0), format!("y: {}", aa));
    let p = ConstraintPair::Subtype(a.copy(), a);
    assert_eq!(p.pretty(&dict, 0), format!("({} <= {})", aa, aa));
}

#[test]
fn estimated_cost_examples() {
    assert_eq!(mt(id(0), id(0)).estimated_cost(), 0);
    assert_eq!(mt(ladder(vec![id(0), id(1)]), id(1)).estimated_cost(), 0);
    assert_eq!(mt(id(0), id(1)).estimated_cost(), 10);
    assert_eq!(mt(spec(vec![id(5), id(0)]), spec(vec![id(5), id(1)])).estimated_cost(), 20);
    assert_eq!(mt(TypeTerm::Sequence { seq_repr: None, item: Box::new(id(0)) }, TypeTerm::Sequence { seq_repr: None, item: Box::new(id(1)) }).estimated_cost(), 20);
}

#[test]
fn base_finds_applicable_morphisms() {
    let mut g = Context::new(0);
    let a = g.parse("A").unwrap();
    let b = g.parse("B").unwrap();
    let c = g.parse("C").unwrap();
    let mut base: MorphismBase<MorphismType> = MorphismBase::new(g.copy());
    base.add_morphism(mt(a.copy(), b.copy()));
    base.add_morphism(mt(c.copy(), b.copy()));
    let mut g0 = base.ctx();
    let found = base.enum_morphisms_from(&mut g0, &a);
    assert_eq!(found.len(), 1);
    assert!(found[0].3.src_type.same(&a));
    assert!(found[0].3.dst_type.same(&b));
    assert_eq!(found[0].1.get_ctxname(), "Ctx 0+1");
    assert_eq!(found[0].2.len(), 0);
    let none = base.enum_morphisms_from(&mut g0, &b);
    assert_eq!(none.len(), 0);
}

#[test]
fn shift_variables_renames_clashes() {
    let mut g = Context::new(0);
    g.add_variable("T", TypeKind::Type);
    let mut other = Context::new(1);
    other.add_variable("T", TypeKind::Type);
    other.add_variable("U", TypeKind::Type);
    let s = g.shift_variables(&other);
    assert_eq!(s.len(), 2);
    assert!(s.get(&0).unwrap().same(&TypeTerm::Var(1)));
    assert!(s.get(&1).unwrap().same(&TypeTerm::Var(2)));
    assert_eq!(g.get_varname(1), Some("T'".to_string()));
    assert_eq!(g.get_varname(2), Some("U".to_string()));
}

#[test]
fn shift_from_parent_moves_outer_variables() {
    let mut g = Context::new(0);
    g.add_variable("T", TypeKind::Type);
    let mut child = g.scope();
    child.add_variable("U", TypeKind::Type);
    let s = child.shift_from_parent();
    assert_eq!(s.len(), 1);
    assert!(s.get(&0).unwrap().same(&TypeTerm::Var(1)));
    assert_eq!(child.get_ctxname(), "Ctx 0+1");
}

fn seq_of(t: TypeTerm) -> TypeTerm {
    TypeTerm::Sequence { seq_repr: None, item: Box::new(t) }
}

fn struct_of(ms: Vec<(&str, TypeTerm)>) -> TypeTerm {
    TypeTerm::Struct { struct_repr: None, members: ms.into_iter().map(|(s, t)| StructMember { symbol: s.to_string(), ty: t }).collect() }
}

#[test]
fn decomposition_of_sequences_and_structs() {
    let base: MorphismBase<MorphismType> = MorphismBase::new(Context::new(0));
    match base.morphism_decomposition(&seq_of(id(0)), &seq_of(id(1))) {
        Some((psi, DecomposedMorphismType::SeqMap { item })) => {
            assert!(psi.same(&TypeTerm::unit()));
            assert!(item.src_type.same(&id(0)));
            assert!(item.dst_type.same(&id(1)));
        }
        _ => panic!("sequences should decompose"),
    }
    let src = struct_of(vec![("x", id(0)), ("y", id(2))]);
    match base.morphism_decomposition(&src, &struct_of(vec![("x", id(1))])) {
        Some((_, DecomposedMorphismType::StructMap { members })) => {
            assert_eq!(members.len(), 1);
            assert_eq!(members[0].0, "x");
            assert!(members[0].1.src_type.same(&id(0)));
            assert!(members[0].1.dst_type.same(&id(1)));
        }
        _ => panic!("structs should decompose"),
    }
    assert!(base.morphism_decomposition(&src, &struct_of(vec![("x", id(0))])).is_none());
    assert!(base.morphism_decomposition(&src, &struct_of(vec![("z", id(0))])).is_none());
    assert!(base.morphism_decomposition(&id(0), &id(1)).is_none());
}

#[test]
fn complex_morphisms_from_base() {
    let mut base: MorphismBase<MorphismType> = MorphismBase::new(Context::new(0));
    base.add_morphism(mt(seq_of(id(0)), seq_of(id(1))));
    base.add_morphism(mt(id(5), id(6)));
    let mut g0 = base.ctx();
    let found = base.enum_complex_morphisms(&mut g0, &seq_of(id(3)));
    assert_eq!(found.len(), 1);
    match &found[0].3 {
        DecomposedMorphismType::SeqMap { item } => {
            assert!(item.src_type.same(&id(3)));
            assert!(item.dst_type.same(&id(0)));
        }
        _ => panic!("expected a sequence map"),
    }
}

#[test]
fn substitution_append_and_filter() {
    let mut a: HashMapSubst = HashMap::new();
    a.insert(0, id(1));
    let mut b: HashMapSubst = HashMap::new();
    b.insert(0, id(2));
    b.insert(3, id(4));
    SubstitutionMut::append(&mut a, &b);
    assert_eq!(a.len(), 2);
    assert!(a.get(&0).unwrap().same(&id(2)));
    let ty = mt(TypeTerm::Var(3), spec(vec![id(9), TypeTerm::Var(7)]));
    let f = a.filter_morphtype(&ty);
    assert_eq!(f.len(), 1);
    assert!(f.get(&3).unwrap().same(&id(4)));
}

#[test]
fn saturate_applies_substitution_to_itself() {
    let mut s: HashMapSubst = HashMap::new();
    s.insert(0, spec(vec![id(5), TypeTerm::Var(1)]));
    s.insert(1, id(6));
    saturate(&mut s);
    assert!(s.get(&0).unwrap().same(&spec(vec![id(5), id(6)])));
    assert!(s.get(&1).unwrap().same(&id(6)));
}

struct EmptySource;

impl MorphBase<MorphismType, u64> for EmptySource {}

#[test]
fn morph_base_defaults() {
    let b = EmptySource;
    assert!(b.get_morphisms(&id(1)).is_empty());
    assert_eq!(b.heuristic(&mt(id(1), id(2))), 0);
}

#[test]
fn graph_search_finds_chain() {
    let mut base: MorphismBase<MorphismType> = MorphismBase::new(Context::new(0));
    base.add_morphism(mt(id(1), id(2)));
    base.add_morphism(mt(id(2), id(3)));
    let graph = MorphismGraph::new(base);
    let (res, search) = graph.search(mt(id(1), id(3)));
    let m = res.expect("a path from 1 to 3");
    let t = m.get_type();
    assert!(t.src_type.same(&id(1)));
    assert!(t.dst_type.same(&id(3)));
    match &m {
        MorphismInstance::Chain { path } => assert_eq!(path.len(), 2),
        _ => panic!("expected a chain of two morphisms"),
    }
    assert!(search.get_solution().is_some());
    assert!(search.goal().dst_type.same(&id(3)));
}

#[test]
fn graph_search_fails_without_path() {
    let mut base: MorphismBase<MorphismType> = MorphismBase::new(Context::new(0));
    base.add_morphism(mt(id(1), id(2)));
    base.add_morphism(mt(id(2), id(1)));
    let graph = MorphismGraph::new(base);
    let (res, search) = graph.search(mt(id(1), id(3)));
    assert_eq!(res.err(), Some(GraphSearchError::NoMorphismFound));
    assert!(search.get_solution().is_none());
    // the start node is recorded twice, then each node that was explored
    assert_eq!(search.history_len(), 3);
}

#[test]
fn graph_search_maps_sequences() {
    let mut base: MorphismBase<MorphismType> = MorphismBase::new(Context::new(0));
    base.add_morphism(mt(id(1), id(3)));
    let graph = MorphismGraph::new(base);
    let (res, _search) = graph.search(mt(seq_of(id(1)), seq_of(id(3))));
    let m = res.expect("a map over the items");
    let t = m.get_type();
    assert!(t.src_type.same(&seq_of(id(1))));
    assert!(t.dst_type.same(&seq_of(id(3))));
}

#[test]
fn graph_search_steps_and_queue() {
    let base: MorphismBase<MorphismType> = MorphismBase::new(Context::new(0));
    let mut search: GraphSearch<MorphismType> = GraphSearch::new(Context::new(0), mt(id(1), id(2)));
    assert_eq!(search.history_len(), 1);
    assert_eq!(search.best_path_weight(), 0);
    match search.advance(&base) {
        GraphSearchState::Continue => {}
        _ => panic!("the start node is explored first"),
    }
    assert_eq!(search.history_len(), 2);
    match search.advance(&base) {
        GraphSearchState::Failed(e) => assert_eq!(e, GraphSearchError::NoMorphismFound),
        _ => panic!("nothing is left to explore"),
    }
    assert_eq!(search.choose_next_node(), None);
}

#[test]
fn graph_search_choose_next_node_takes_start() {
    let mut search: GraphSearch<MorphismType> = GraphSearch::new(Context::new(0), mt(id(1), id(2)));
    assert_eq!(search.choose_next_node(), Some(0));
    assert_eq!(search.choose_next_node(), None);
    assert_eq!(search.best_path_weight(), 0);
}

#[test]
fn decomposition_trivial_and_same() {
    let d1 = DecomposedMorphismType::SeqMap { item: mt(id(1), id(1)) };
    assert!(d1.is_trivial());
    let d2 = DecomposedMorphismType::SeqMap { item: mt(id(1), id(2)) };
    assert!(!d2.is_trivial());
    assert!(d2.same(&d2.copy()));
    assert!(!d1.same(&d2));
    let d3 = DecomposedMorphismType::StructMap { members: vec![("x".to_string(), mt(id(1), id(1))), ("y".to_string(), mt(id(2), id(2)))] };
    assert!(d3.is_trivial());
    let d4 = DecomposedMorphismType::EnumMap { variants: vec![("x".to_string(), mt(id(1), id(3)))] };
    assert!(!d4.is_trivial());
    assert!(!d3.same(&d4));
}

#[test]
fn context_accessors() {
    let mut g = Context::new(0);
    g.add_variable("T", TypeKind::Type);
    assert_eq!(g.get_gamma().len(), 1);
    assert!(g.can_scope());
    assert_eq!(g.0.try_n_variables(), Some(1));
    g.bind(0, id(5)).unwrap();
    assert!(g.get_sigma().get(&0).unwrap().same(&id(5)));
    let child = g.scope();
    assert_eq!(child.0.try_n_variables(), Some(1));
}

#[test]
fn instance_try_type_and_weight() {
    let p = prim(id(1), id(2));
    let t = p.try_get_type().expect("the type of a primitive");
    assert!(t.src_type.same(&id(1)));
    assert!(t.dst_type.same(&id(2)));
    assert_eq!(p.try_get_weight(), Some(10));
    let c = MorphismInstance::Chain { path: vec![prim(id(1), id(2)), prim(id(2), id(3))] };
    assert_eq!(c.try_get_weight(), Some(20));
    let empty: MorphismInstance<MorphismType> = MorphismInstance::Chain { path: vec![] };
    assert!(empty.try_get_type().is_none());
}

#[test]
fn base_try_enumerations() {
    let mut base: MorphismBase<MorphismType> = MorphismBase::new(Context::new(0));
    base.add_morphism(mt(id(1), id(2)));
    let mut g0 = base.ctx();
    let found = base.try_enum_morphisms_from(&mut g0, &id(1)).expect("within the budget");
    assert_eq!(found.len(), 1);
    let complex = base.try_enum_complex_morphisms(&mut g0, &id(1)).expect("within the budget");
    assert_eq!(complex.len(), 0);
    match base.try_morphism_decomposition(&seq_of(id(1)), &seq_of(id(2))) {
        Some(Some((_, DecomposedMorphismType::SeqMap { item }))) => assert!(item.dst_type.same(&id(2))),
        _ => panic!("sequences should decompose"),
    }
}

#[test]
fn context_equality_ignores_names_of_layers() {
    let mut a = Context::new(0);
    let b = Context::new(1);
    assert!(a.eq(&b));
    a.add_variable("T", TypeKind::Type);
    assert!(!a.eq(&b));
    let mut c = Context::new(2);
    c.add_variable("T", TypeKind::Type);
    assert!(a.eq(&c));
    let sa = a.scope();
    let sc = c.scope();
    assert!(sa.eq(&sc));
}

#[test]
fn context_pretty_layers() {
    let mut g = Context::new(0);
    g.add_variable("T", TypeKind::Type);
    assert_eq!(g.pretty(), "(Ctx 0) ∀{T ↦ Type;},σ={}");
    let child = g.scope();
    assert_eq!(child.pretty(), "(Ctx 0+1) ∀{},σ={}.(Ctx 0) ∀{T ↦ Type;},σ={}");
    g.bind(0, TypeTerm::Num(3)).unwrap();
    let s = g.pretty();
    assert!(s.starts_with("(Ctx 0) ∀{T ↦ Type;},σ={T(0) ↦ "));
    assert!(s.ends_with(";}"));
}

#[test]
fn graph_search_solves_identity_at_start() {
    let base: MorphismBase<MorphismType> = MorphismBase::new(Context::new(0));
    let mut search: GraphSearch<MorphismType> = GraphSearch::new(Context::new(0), mt(id(1), id(1)));
    match search.advance(&base) {
        GraphSearchState::Solved(MorphismInstance::Id { tau }) => assert!(tau.same(&id(1))),
        _ => panic!("the empty path reaches the goal"),
    }
    match search.get_solution() {
        Some(MorphismInstance::Id { tau }) => assert!(tau.same(&id(1))),
        _ => panic!("the solution is the identity"),
    }
    let graph = MorphismGraph::new(MorphismBase::<MorphismType>::new(Context::new(0)));
    let (res, s) = graph.search(mt(id(1), id(1)));
    match res {
        Ok(MorphismInstance::Id { tau }) => assert!(tau.same(&id(1))),
        _ => panic!("the search is solved by its first step"),
    }
    assert_eq!(s.history_len(), 2);
}

#[test]
fn graph_search_empty_base_leaves_no_solution() {
    let base: MorphismBase<MorphismType> = MorphismBase::new(Context::new(0));
    let mut search: GraphSearch<MorphismType> = GraphSearch::new(Context::new(0), mt(id(1), id(2)));
    assert!(matches!(search.advance(&base), GraphSearchState::Continue));
    assert!(search.get_solution().is_none());
    assert!(matches!(search.advance(&base), GraphSearchState::Failed(GraphSearchError::NoMorphismFound)));
    assert!(search.get_solution().is_none());
}

fn start_node(src: TypeTerm) -> SearchNode<MorphismType> {
    SearchNode {
        id: 0,
        pred: None,
        weight: 0,
        est_remain: 0,
        ctx: Context::new(0),
        ty: mt(src.copy(), src.copy()),
        step: Step::Id { tau: src },
        psi: TypeTerm::unit(),
    }
}

#[test]
fn est_remain_of_start_node() {
    let n = start_node(id(1));
    assert_eq!(est_remain(&n, &mt(id(1), id(1))), Some(0));
    assert_eq!(est_remain(&n, &mt(id(1), id(2))), Some(10));
    assert!(n.is_ready());
}
