use laddertypes::context::{Context, ContextPtr};
use laddertypes::constraint_system::{unify, subtype_unify, CP2, ConstraintSystem};
use laddertypes::lexer::{InputRegionTag, LadderTypeLexer, LadderTypeToken, LexError};
use laddertypes::term::{TypeTerm, StructMember};
use laddertypes::pnf::splice_ladders;
use laddertypes::unparser::UnparseLadderType;
use laddertypes::dict::{BimapTypeDict, TypeDict, TypeID, Bimap};
use laddertypes::substitution::Substitution;

fn ctx() -> ContextPtr {
    Context::new(0)
}

fn id(x: u64) -> TypeTerm {
    TypeTerm::Id(x)
}

fn spec(v: Vec<TypeTerm>) -> TypeTerm {
    TypeTerm::Spec(v)
}

fn ladder(v: Vec<TypeTerm>) -> TypeTerm {
    TypeTerm::Ladder(v)
}

#[test]
fn curry_application() {
    let t = spec(vec![id(0), id(1), id(2), id(3)]);
    let c = t.copy().curry();
    let expected = spec(vec![spec(vec![spec(vec![id(0), id(1)]), id(2)]), id(3)]);
    assert!(c.same(&expected));
    assert!(c.decurry().same(&t));
}

#[test]
fn curry_inside_ladder() {
    let t = ladder(vec![spec(vec![id(0), id(1), id(2)]), id(3)]);
    let c = t.curry();
    assert!(c.same(&ladder(vec![spec(vec![spec(vec![id(0), id(1)]), id(2)]), id(3)])));
}

#[test]
fn normalize_doc_example() {
    let mut dict = ctx();
    let t = dict.parse("<Seq <Digit 10>>~<Seq Char>").unwrap();
    let expected = dict.parse("<Seq <Digit 10>~Char>").unwrap();
    assert!(t.normalize().same(&expected));
}

#[test]
fn normalize_flattens_single_rung() {
    let t = ladder(vec![id(4)]);
    assert!(t.normalize().same(&id(4)));
    assert!(ladder(vec![]).normalize().same(&TypeTerm::unit()));
}

#[test]
fn strip_flattens_ladders() {
    let t = ladder(vec![ladder(vec![id(0), id(1)]), TypeTerm::unit(), spec(vec![id(2)])]);
    assert!(t.strip().same(&ladder(vec![id(0), id(1), id(2)])));
}

#[test]
fn interface_and_floor_type() {
    let t = ladder(vec![spec(vec![id(0), ladder(vec![id(1), id(2)])]), id(3)]);
    assert!(t.get_interface_type().same(&spec(vec![id(0), id(1)])));
    let (rest, floor) = t.get_floor_type();
    assert!(floor.same(&id(3)));
    assert!(rest.same(&spec(vec![id(0), ladder(vec![id(1), id(2)])])));
}

#[test]
fn contains_var_and_is_empty() {
    let t = spec(vec![id(0), TypeTerm::Var(3)]);
    assert!(t.contains_var(3));
    assert!(!t.contains_var(2));
    assert!(TypeTerm::unit().is_empty());
    assert!(!t.is_empty());
}

#[test]
fn splice_ladders_overlap() {
    let upper = vec![id(0), id(1), id(2)];
    let lower = vec![id(1), id(5)];
    let r = splice_ladders(upper, lower);
    assert_eq!(r.len(), 3);
    assert!(r[0].same(&id(0)));
    assert!(r[1].same(&id(1)));
    assert!(r[2].same(&id(5)));
    let r2 = splice_ladders(vec![id(0)], vec![id(7)]);
    assert_eq!(r2.len(), 2);
    assert!(r2[1].same(&id(7)));
}

#[test]
fn unify_variable_with_constant() {
    let s = unify(&TypeTerm::Var(0), &id(1)).unwrap();
    assert_eq!(s.len(), 1);
    assert!(s.get(&0).unwrap().same(&id(1)));
}

#[test]
fn unify_inside_application() {
    let s = unify(&spec(vec![id(0), TypeTerm::Var(7)]), &spec(vec![id(0), id(2)])).unwrap();
    assert!(s.get(&7).unwrap().same(&id(2)));
}

#[test]
fn unify_different_constants_fails() {
    assert!(unify(&id(0), &id(1)).is_err());
}

#[test]
fn subtype_of_ladder_bottom() {
    let (halo, s) = subtype_unify(&ladder(vec![id(0), id(1)]), &id(1)).unwrap();
    assert!(halo.same(&id(0)));
    assert_eq!(s.len(), 0);
}

#[test]
fn subtype_with_variable() {
    let (_halo, s) = subtype_unify(&ladder(vec![id(0), id(1)]), &TypeTerm::Var(3)).unwrap();
    assert!(s.get(&3).is_some());
}

#[test]
fn constraint_system_solves_equations() {
    let cs = ConstraintSystem::new_eq(vec![CP2::new(TypeTerm::Var(0), id(5)), CP2::new(TypeTerm::Var(1), TypeTerm::Var(0))]);
    let (_halos, s) = cs.solve().unwrap();
    assert!(s.get(&0).unwrap().same(&id(5)));
    assert!(s.get(&1).unwrap().same(&id(5)));
}

#[test]
fn lexer_tokens_and_regions() {
    let mut lx = LadderTypeLexer::from_str("<A 12>");
    let (r, t) = lx.next().unwrap();
    assert_eq!(r, InputRegionTag { begin: 0, end: 1 });
    assert!(matches!(t, Ok(LadderTypeToken::OpenSpec)));
    let (r, t) = lx.next().unwrap();
    assert_eq!(r, InputRegionTag { begin: 1, end: 2 });
    assert!(matches!(t, Ok(LadderTypeToken::Symbol(ref s)) if s == "A"));
    let (r, t) = lx.next().unwrap();
    assert_eq!(r, InputRegionTag { begin: 3, end: 5 });
    assert!(matches!(t, Ok(LadderTypeToken::Num(12))));
    let (r, t) = lx.next().unwrap();
    assert_eq!(r, InputRegionTag { begin: 5, end: 6 });
    assert!(matches!(t, Ok(LadderTypeToken::CloseSpec)));
    assert!(lx.next().is_none());
}

#[test]
fn lexer_arrows_relations_and_errors() {
    let mut lx = LadderTypeLexer::from_str("--> -morph-> :<= :>< :|| : 1x");
    assert!(matches!(lx.next().unwrap().1, Ok(LadderTypeToken::ArrowFunc)));
    assert!(matches!(lx.next().unwrap().1, Ok(LadderTypeToken::ArrowMorph)));
    assert!(matches!(lx.next().unwrap().1, Ok(LadderTypeToken::SubType)));
    assert!(matches!(lx.next().unwrap().1, Ok(LadderTypeToken::TraitType)));
    assert!(matches!(lx.next().unwrap().1, Ok(LadderTypeToken::ParallelType)));
    assert!(matches!(lx.next().unwrap().1, Ok(LadderTypeToken::AssignType)));
    assert!(matches!(lx.next().unwrap().1, Err(LexError::InvalidDigit)));
}

#[test]
fn lexer_stops_at_equals() {
    let mut lx = LadderTypeLexer::from_str("A = B");
    assert!(matches!(lx.next().unwrap().1, Ok(LadderTypeToken::Symbol(_))));
    assert!(lx.next().is_none());
}

#[test]
fn bimap_dict_names() {
    let mut d = BimapTypeDict::new();
    let a = d.add_typename("A");
    let b = d.add_typename("B");
    let v = d.add_varname("T");
    assert_eq!(a, 0);
    assert_eq!(b, 1);
    assert_eq!(v, 0);
    assert_eq!(d.get_typeid("B"), Some(TypeID::Fun(1)));
    assert_eq!(d.get_typeid("T"), Some(TypeID::Var(0)));
    assert_eq!(d.get_typename(0), Some("A".to_string()));
    assert_eq!(d.get_varname(0), Some("T".to_string()));
    assert_eq!(d.get_typeid("C"), None);
    assert_eq!(d.get_typeid_creat("C"), TypeID::Fun(2));
    assert_eq!(d.unparse(&spec(vec![id(0), TypeTerm::Var(0)])), "<A T>");
}

#[test]
fn bimap_later_insert_wins() {
    let mut m = Bimap::new();
    m.insert("x".to_string(), TypeID::Fun(1));
    m.insert("x".to_string(), TypeID::Fun(2));
    assert_eq!(m.get_by_name("x"), Some(TypeID::Fun(2)));
    assert_eq!(m.get_by_id(TypeID::Fun(1)), Some("x".to_string()));
    assert_eq!(m.get_by_name("y"), None);
}

#[test]
fn context_scopes() {
    let mut c = ctx();
    let a = c.add_typename("A");
    assert_eq!(a, 0);
    c.enter_scope();
    assert_eq!(c.get_ctxname(), "Ctx 0+1");
    let v = c.add_variable("T", laddertypes::term::TypeKind::Type);
    assert_eq!(v, 0);
    assert_eq!(c.get_typeid("T"), Some(TypeID::Var(0)));
    assert_eq!(c.get_typeid("A"), Some(TypeID::Fun(0)));
    assert_eq!(c.get_varname(0), Some("T".to_string()));
    assert_eq!(c.0.n_variables(), 1);
    c.leave_scope();
    assert_eq!(c.get_typeid("T"), None);
    assert_eq!(c.0.n_variables(), 0);
    c.enter_scope();
    assert_eq!(c.get_ctxname(), "Ctx 0+2");
}

#[test]
fn context_bindings_are_a_substitution() {
    let mut c = ctx();
    c.add_variable("T", laddertypes::term::TypeKind::Type);
    c.bind(0, id(3)).unwrap();
    assert!(c.get(0).unwrap().same(&id(3)));
    assert!(c.get(1).is_err());
    let mut t = spec(vec![TypeTerm::Var(0), TypeTerm::Var(1)]);
    t.apply_subst(&c);
    assert!(t.same(&spec(vec![id(3), TypeTerm::Var(1)])));
}

#[test]
fn struct_member_fields() {
    let m = StructMember { symbol: "x".to_string(), ty: id(0) };
    assert_eq!(m.symbol, "x");
}

#[test]
fn apply_substitution_hands_back_the_term() {
    let mut c = ctx();
    c.add_variable("T", laddertypes::term::TypeKind::Type);
    c.bind(0, id(3)).unwrap();
    let mut t = spec(vec![TypeTerm::Var(0), id(1)]);
    let r = t.apply_substitution(&c);
    assert!(r.same(&spec(vec![id(3), id(1)])));
    *r = id(7);
    assert!(t.same(&id(7)));
}

#[test]
fn empty_terms_strip_to_unit() {
    let s = TypeTerm::Sequence { seq_repr: Some(Box::new(id(1))), item: Box::new(TypeTerm::unit()) };
    assert!(s.is_empty());
    assert!(s.copy().strip().same(&TypeTerm::unit()));
    let l = ladder(vec![TypeTerm::unit(), id(2)]);
    assert!(!l.is_empty());
    assert!(!l.copy().strip().same(&TypeTerm::unit()));
    assert!(l.strip().same(&id(2)));
}

#[test]
fn strip_twice_is_strip_once() {
    let t = ladder(vec![
        spec(vec![ladder(vec![id(1), id(2)])]),
        TypeTerm::unit(),
        ladder(vec![id(3), ladder(vec![])]),
    ]);
    let once = t.copy().strip();
    assert!(once.same(&ladder(vec![id(1), id(2), id(3)])));
    assert!(once.copy().strip().same(&once));
}

#[test]
fn unify_gives_a_unifier() {
    let t1 = spec(vec![TypeTerm::Var(0), TypeTerm::Var(1)]);
    let t2 = spec(vec![TypeTerm::Var(1), id(5)]);
    let s = unify(&t1, &t2).unwrap();
    let mut a = t1.copy();
    a.apply_subst(&s);
    let mut b = t2.copy();
    b.apply_subst(&s);
    assert!(a.same(&b));
    assert!(a.same(&spec(vec![id(5), id(5)])));
}

#[test]
fn unify_accepts_a_missing_sequence_representation() {
    let a = TypeTerm::Sequence { seq_repr: Some(Box::new(id(1))), item: Box::new(id(2)) };
    let b = TypeTerm::Sequence { seq_repr: None, item: Box::new(id(2)) };
    let s = unify(&a, &b).unwrap();
    assert!(s.is_empty());
    assert!(!a.same(&b));
}
