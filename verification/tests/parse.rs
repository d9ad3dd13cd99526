use laddertypes::context::{Context, ContextPtr};
use laddertypes::lexer::InputRegionTag;
use laddertypes::parser::{ParseError, ParseInfo, ParseInfoType};
use laddertypes::term::{TypeTerm, TypeKind};
use laddertypes::unparser::UnparseLadderType;

fn ctx() -> ContextPtr {
    Context::new(0)
}

fn id(x: u64) -> TypeTerm {
    TypeTerm::Id(x)
}

fn spec(v: Vec<TypeTerm>) -> TypeTerm {
    TypeTerm::Spec(v)
}

fn ladder(v: Vec<TypeTerm>) -> TypeTerm {
    TypeTerm::Ladder(v)
}

#[test]
fn readme_curry_decurry() {
    let mut dict = ctx();
    let t1 = dict.parse("<A B~X C>").expect("couldnt parse typeterm");
    let t2 = dict.parse("<<A B~X> C>").expect("couldnt parse typeterm");
    assert!(t1.copy().curry().same(&t2));
    assert!(t1.same(&t2.decurry()));
}

#[test]
fn parse_names_get_fresh_ids() {
    let mut dict = ctx();
    let a = dict.parse("A").unwrap();
    let b = dict.parse("B").unwrap();
    let a2 = dict.parse("A").unwrap();
    assert!(a.same(&id(0)));
    assert!(b.same(&id(1)));
    assert!(a2.same(&id(0)));
    assert_eq!(dict.get_typename(0), Some("A".to_string()));
    assert_eq!(dict.get_typename(1), Some("B".to_string()));
    assert_eq!(dict.get_typename(2), None);
}

#[test]
fn parse_warns_about_unknown_names() {
    let mut dict = ctx();
    let mut warnings: Vec<ParseInfo> = Vec::new();
    let t = dict.parse_warn("<A B A>", &mut warnings).unwrap();
    assert!(t.same(&spec(vec![id(0), id(1), id(0)])));
    assert_eq!(warnings.len(), 2);
    match &warnings[0].info {
        ParseInfoType::UnknownTypeName(s) => assert_eq!(s, "A"),
    }
    match &warnings[1].info {
        ParseInfoType::UnknownTypeName(s) => assert_eq!(s, "B"),
    }
    assert_eq!(warnings[0].char_range, InputRegionTag { begin: 1, end: 2 });
    assert_eq!(warnings[1].char_range, InputRegionTag { begin: 3, end: 4 });
    let mut more: Vec<ParseInfo> = Vec::new();
    dict.parse_warn("A", &mut more).unwrap();
    assert_eq!(more.len(), 0);
}

#[test]
fn parse_ladder_and_application() {
    let mut dict = ctx();
    let t = dict.parse("<Seq Char>~<Seq Byte>").unwrap();
    // Seq = 0, Char = 1, Byte = 2
    let expected = ladder(vec![spec(vec![id(0), id(1)]), spec(vec![id(0), id(2)])]);
    assert!(t.same(&expected));
}

#[test]
fn parse_arrows() {
    let mut dict = ctx();
    let f = dict.parse("A --> B").unwrap();
    assert!(f.same(&TypeTerm::Func(vec![id(0), id(1)])));
    let m = dict.parse("A -morph-> B").unwrap();
    assert!(m.same(&TypeTerm::Morph(Box::new(id(0)), Box::new(id(1)))));
    let nested = dict.parse("A --> B --> A").unwrap();
    assert!(nested.same(&TypeTerm::Func(vec![id(0), TypeTerm::Func(vec![id(1), id(0)])])));
}

#[test]
fn parse_literals() {
    let mut dict = ctx();
    assert!(dict.parse("42").unwrap().same(&TypeTerm::Num(42)));
    assert!(dict.parse("'x'").unwrap().same(&TypeTerm::Char('x')));
    assert!(dict.parse("'\\n'").unwrap().same(&TypeTerm::Char('\n')));
    assert!(dict.parse("<Digit 10>").unwrap().same(&spec(vec![id(0), TypeTerm::Num(10)])));
}

#[test]
fn parse_sequence_types() {
    let mut dict = ctx();
    let s = dict.parse("[A]").unwrap();
    assert!(s.same(&TypeTerm::Sequence { seq_repr: None, item: Box::new(id(0)) }));
    let r = dict.parse("[~B A]").unwrap();
    assert!(r.same(&TypeTerm::Sequence { seq_repr: Some(Box::new(id(1))), item: Box::new(id(0)) }));
}

#[test]
fn parse_struct_and_enum() {
    let mut dict = ctx();
    let s = dict.parse("{ x: A; y: B; }").unwrap();
    match &s {
        TypeTerm::Struct { struct_repr, members } => {
            assert!(struct_repr.is_none());
            assert_eq!(members.len(), 2);
            assert_eq!(members[0].symbol, "x");
            assert!(members[0].ty.same(&id(0)));
            assert_eq!(members[1].symbol, "y");
            assert!(members[1].ty.same(&id(1)));
        }
        _ => panic!("not a struct"),
    }
    let e = dict.parse("{ | a: A | b: B }").unwrap();
    match &e {
        TypeTerm::Enum { enum_repr, variants } => {
            assert!(enum_repr.is_none());
            assert_eq!(variants.len(), 2);
            assert_eq!(variants[0].symbol, "a");
            assert!(variants[0].ty.same(&id(0)));
            assert_eq!(variants[1].symbol, "b");
            assert!(variants[1].ty.same(&id(1)));
        }
        _ => panic!("not an enum"),
    }
}

#[test]
fn parse_universal_type() {
    let mut dict = ctx();
    let t = dict.parse("∀T <Seq T>").unwrap();
    match &t {
        TypeTerm::Univ { gamma, bounds, tau } => {
            assert_eq!(gamma.len(), 1);
            assert_eq!(gamma[0].symbol, "T");
            assert!(matches!(gamma[0].kind, TypeKind::Type));
            assert_eq!(bounds.len(), 0);
            assert!(tau.same(&spec(vec![id(0), TypeTerm::Var(0)])));
        }
        _ => panic!("not a universal type"),
    }
    // the scope was left: `T` is unknown outside, `Seq` stays known
    assert_eq!(dict.get_typeid("T"), None);
    assert!(dict.parse("Seq").unwrap().same(&id(0)));
    assert_eq!(dict.get_ctxname(), "Ctx 0");
}

#[test]
fn parse_universal_type_with_bound() {
    let mut dict = ctx();
    let t = dict.parse("∀T (T :<= A) T").unwrap();
    match &t {
        TypeTerm::Univ { gamma, bounds, tau } => {
            assert_eq!(gamma.len(), 1);
            assert_eq!(bounds.len(), 1);
            assert!(bounds[0].same(&laddertypes::term::ConstraintPair::Subtype(TypeTerm::Var(0), id(0))));
            assert!(tau.same(&TypeTerm::Var(0)));
        }
        _ => panic!("not a universal type"),
    }
}

#[test]
fn parse_errors() {
    let mut dict = ctx();
    assert_eq!(dict.parse("").unwrap_err(), (InputRegionTag { begin: 0, end: 0 }, ParseError::UnexpectedEnd));
    assert_eq!(dict.parse(">").unwrap_err().1, ParseError::UnexpectedClose);
    assert_eq!(dict.parse("<A").unwrap_err().1, ParseError::UnexpectedEnd);
    assert_eq!(dict.parse("A B").unwrap_err(), (InputRegionTag { begin: 2, end: 3 }, ParseError::UnexpectedToken));
    assert_eq!(dict.parse("~A").unwrap_err().1, ParseError::UnexpectedLadder);
    assert_eq!(dict.parse("(A").unwrap_err().1, ParseError::UnexpectedEnd);
    assert_eq!(dict.parse("[A").unwrap_err().1, ParseError::UnexpectedEnd);
    assert_eq!(dict.parse("[]").unwrap_err().1, ParseError::UnexpectedClose);
}

#[test]
fn parse_then_unparse() {
    let mut dict = ctx();
    for s in ["<A B~X C>", "A~B~C", "[~B A]", "{x: A; y: B; }", "{| a: A| b: B}", "'c'", "-5", "<Digit 10>"] {
        let t = dict.parse(s).unwrap();
        assert_eq!(dict.unparse(&t), s);
    }
}

#[test]
fn unparse_arrows() {
    let mut dict = ctx();
    let f = dict.parse("A --> B").unwrap();
    assert_eq!(dict.unparse(&f), "A-->B");
    let m = dict.parse("A -morph-> B").unwrap();
    assert_eq!(dict.unparse(&m), "A-morph->B");
}

#[test]
fn unparse_universal_type() {
    let mut dict = ctx();
    let t = dict.parse("∀T (T :<= A) T").unwrap();
    // the variable is printed with the names of the outer context, where it is unknown
    assert_eq!(dict.unparse(&t), "∀T (?Var? <= A) ?Var?");
}

#[test]
fn unparse_escapes_characters() {
    let dict = ctx();
    assert_eq!(dict.unparse(&TypeTerm::Char('\0')), "'\\0'");
    assert_eq!(dict.unparse(&TypeTerm::Char('\t')), "'\\t'");
    assert_eq!(dict.unparse(&TypeTerm::Char('\'')), "'\\''");
    assert_eq!(dict.unparse(&TypeTerm::Id(7)), "?Fun?");
}
