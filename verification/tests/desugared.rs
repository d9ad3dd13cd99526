use laddertypes::desugared::DesugaredTypeTerm;
use laddertypes::dict::TypeID;

fn f(x: u64) -> DesugaredTypeTerm {
    DesugaredTypeTerm::TypeID(TypeID::Fun(x))
}

fn v(x: u64) -> DesugaredTypeTerm {
    DesugaredTypeTerm::TypeID(TypeID::Var(x))
}

fn app(a: Vec<DesugaredTypeTerm>) -> DesugaredTypeTerm {
    DesugaredTypeTerm::App(a)
}

fn lad(a: Vec<DesugaredTypeTerm>) -> DesugaredTypeTerm {
    DesugaredTypeTerm::Ladder(a)
}

const SEQ: u64 = 0;
const DIGIT: u64 = 1;
const CHAR: u64 = 2;

#[test]
fn desugared_builders() {
    let mut t = DesugaredTypeTerm::new(TypeID::Fun(SEQ));
    t.num_arg(10);
    assert_eq!(t, app(vec![f(SEQ), DesugaredTypeTerm::Num(10)]));
    t.char_arg(':');
    assert_eq!(t, app(vec![f(SEQ), DesugaredTypeTerm::Num(10), DesugaredTypeTerm::Char(':')]));
    let mut r = f(DIGIT);
    r.repr_as(f(CHAR));
    assert_eq!(r, lad(vec![f(DIGIT), f(CHAR)]));
    r.repr_as(f(SEQ));
    assert_eq!(r, lad(vec![f(DIGIT), f(CHAR), f(SEQ)]));
    assert_eq!(DesugaredTypeTerm::unit(), lad(vec![]));
}

#[test]
fn desugared_contains_var() {
    let t = app(vec![f(SEQ), lad(vec![v(3), f(CHAR)])]);
    assert!(t.contains_var(3));
    assert!(!t.contains_var(4));
}

#[test]
fn desugared_strip_and_interface() {
    let t = lad(vec![lad(vec![f(1), f(2)]), lad(vec![]), app(vec![f(3)])]);
    assert_eq!(t.strip(), lad(vec![f(1), f(2), f(3)]));
    let u = app(vec![f(SEQ), lad(vec![f(DIGIT), f(CHAR)])]);
    assert_eq!(u.get_interface_type(), app(vec![f(SEQ), f(DIGIT)]));
}

#[test]
fn lnf_is_flat_doc_examples() {
    // <Seq <Digit 10>> is flat, <Digit 10>~Char is not
    let a = app(vec![f(SEQ), app(vec![f(DIGIT), DesugaredTypeTerm::Num(10)])]);
    assert!(a.is_flat());
    let b = lad(vec![app(vec![f(DIGIT), DesugaredTypeTerm::Num(10)]), f(CHAR)]);
    assert!(!b.is_flat());
    let c = app(vec![f(SEQ), b]);
    assert!(!c.is_flat());
}

#[test]
fn lnf_normalize_doc_example() {
    // <Seq <Digit 10>~Char>  =>  <Seq <Digit 10>> ~ <Seq Char>
    let digit10 = app(vec![f(DIGIT), DesugaredTypeTerm::Num(10)]);
    let t = app(vec![f(SEQ), lad(vec![digit10.copy(), f(CHAR)])]);
    let expected = lad(vec![app(vec![f(SEQ), digit10.copy()]), app(vec![f(SEQ), f(CHAR)])]);
    assert_eq!(t.copy().normalize(), expected);
    assert_eq!(t.get_lnf_vec(), vec![app(vec![f(SEQ), digit10]), app(vec![f(SEQ), f(CHAR)])]);
}

#[test]
fn lnf_normalize_duplicates_last_rung() {
    // <M A~B C~D~E>  =>  <M A C> ~ <M B C> ~ <M B D> ~ <M B E>
    let t = app(vec![f(0), lad(vec![f(1), f(2)]), lad(vec![f(3), f(4), f(5)])]);
    let expected = lad(vec![
        app(vec![f(0), f(1), f(3)]),
        app(vec![f(0), f(2), f(3)]),
        app(vec![f(0), f(2), f(4)]),
        app(vec![f(0), f(2), f(5)]),
    ]);
    assert_eq!(t.normalize(), expected);
}

#[test]
fn lnf_normalize_atoms_and_flat() {
    assert_eq!(f(7).normalize(), f(7));
    assert_eq!(lad(vec![]).normalize(), lad(vec![]));
    assert_eq!(lad(vec![f(7)]).normalize(), f(7));
    let flat = app(vec![f(SEQ), app(vec![f(DIGIT), DesugaredTypeTerm::Num(16)])]);
    assert_eq!(flat.copy().normalize(), flat);
}

#[test]
fn lnf_try_normalize_unit_argument_fails() {
    let t = app(vec![f(SEQ), lad(vec![])]);
    assert_eq!(t.try_normalize(), None);
}

#[test]
fn subtype_semantic_and_syntactic() {
    let provided = lad(vec![f(1), f(2), f(3)]);
    let expected = lad(vec![f(2), f(3)]);
    assert_eq!(provided.is_semantic_subtype_of(&expected), Some((1, lad(vec![f(2), f(3)]))));
    assert_eq!(provided.is_syntactic_subtype_of(&expected), Ok(1));
    assert_eq!(expected.is_semantic_supertype_of(&provided), Some((1, lad(vec![f(2), f(3)]))));
    assert_eq!(expected.is_syntactic_supertype_of(&provided), Ok(1));
}

#[test]
fn subtype_mismatch_reports_indices() {
    let provided = lad(vec![f(1), f(2), f(3)]);
    let expected = lad(vec![f(2), f(4)]);
    assert_eq!(provided.is_syntactic_subtype_of(&expected), Err((1, 2)));
    let unrelated = lad(vec![f(8), f(9)]);
    assert_eq!(provided.is_semantic_subtype_of(&unrelated), None);
    assert_eq!(provided.is_syntactic_subtype_of(&unrelated), Err((0, 0)));
}

#[test]
fn lnf_vec_of_flat_term_is_one_rung() {
    assert_eq!(f(0).get_lnf_vec(), vec![f(0)]);
    let t = app(vec![f(SEQ), f(CHAR)]);
    assert_eq!(t.copy().get_lnf_vec(), vec![t]);
}

#[test]
fn semantic_subtype_of_flat_terms() {
    let t = app(vec![f(SEQ), f(CHAR)]);
    assert_eq!(t.is_semantic_subtype_of(&t.copy()), Some((0, lad(vec![t.copy()]))));
    assert_eq!(t.is_syntactic_subtype_of(&t.copy()), Ok(0));
    assert_eq!(t.is_semantic_subtype_of(&f(1)), None);
}
