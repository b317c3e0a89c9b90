use goblin::parse_binding::Binding as ParseBinding;
use goblin::parse_error::ParseError;
use goblin::scope::{Scope, ScopeRecord, ScopeType};
use goblin::source::Source;
use goblin::object_builder::{Exports, PairParamsBuilder, ParamsBuilder};

#[test]
fn scope_get_after_add() {
    let mut s = Scope::root();
    assert_eq!(s.get("x"), None);
    let r = s.add("x".to_string(), ScopeType::Let);
    assert_eq!(r, ScopeRecord { index: 0, typ: ScopeType::Let });
    assert_eq!(s.get("x"), Some(r));
    let r2 = s.add("y".to_string(), ScopeType::Let);
    assert_eq!(r2.index, 1);
    assert_eq!(s.get("x"), Some(r));
    let r3 = s.add("x".to_string(), ScopeType::Let);
    assert_eq!(s.get("x"), Some(r3));
    assert_eq!(r3.index, 2);
}

#[test]
fn parse_error_constructors() {
    assert_eq!(
        ParseError::expected::<()>("thing"),
        Err(ParseError::Expected("thing".to_string()))
    );
    assert_eq!(
        ParseError::duplicate_key::<()>("k"),
        Err(ParseError::DuplicateKey("k".to_string()))
    );
    assert_eq!(
        ParseError::duplicate_handler::<()>("h:"),
        Err(ParseError::DuplicateHandler("h:".to_string()))
    );
    assert_eq!(
        ParseError::expected_pair_got_key::<()>("k"),
        Err(ParseError::ExpectedPairGotKey("k".to_string()))
    );
    assert_eq!(
        ParseError::expected_end_of_input::<()>(),
        Err(ParseError::ExpectedEndOfInput)
    );
    assert_eq!(
        ParseError::duplicate_else_handler::<()>(),
        Err(ParseError::DuplicateElseHandler)
    );
    assert_eq!(
        ParseError::invalid_set_binding::<()>(),
        Err(ParseError::InvalidSetBinding)
    );
    assert_eq!(
        ParseError::invalid_set_in_place::<()>(),
        Err(ParseError::InvalidSetInPlace)
    );
    assert_eq!(
        ParseError::InvalidSetBinding.with_source(Source::new(1, 2)),
        ParseError::WithSource(Box::new(ParseError::InvalidSetBinding), Source::new(1, 2))
    );
}

#[test]
fn object_builder_pairs_and_destructuring() {
    let mut b = PairParamsBuilder::new();
    assert_eq!(
        b.add_value("y".to_string(), ParseBinding::Identifier("b".to_string(), Source::new(0, 1))),
        Ok(())
    );
    assert_eq!(
        b.add_value("x".to_string(), ParseBinding::Placeholder(Source::new(2, 1))),
        Ok(())
    );
    assert_eq!(
        b.add_var("x".to_string(), "v".to_string()),
        Err(ParseError::DuplicateKey("x".to_string()))
    );
    let parts = ParamsBuilder::PairBuilder(b).build_destructuring().unwrap();
    assert_eq!(
        parts,
        vec![
            ("x".to_string(), ParseBinding::Placeholder(Source::new(2, 1))),
            ("y".to_string(), ParseBinding::Identifier("b".to_string(), Source::new(0, 1))),
        ]
    );
}

#[test]
fn object_builder_key_and_other_params() {
    match ParamsBuilder::key("k".to_string()) {
        ParamsBuilder::KeyBuilder(k) => assert_eq!(k, "k".to_string()),
        _ => panic!("expected a key"),
    }
    let mut b = PairParamsBuilder::new();
    assert_eq!(b.add_do("f".to_string(), "g".to_string()), Ok(()));
    assert_eq!(
        b.add_do("f".to_string(), "h".to_string()),
        Err(ParseError::DuplicateKey("f".to_string()))
    );
}

#[test]
fn object_builder_exports() {
    let mut e = Exports::new();
    assert_eq!(e.add("b", 1), Ok(()));
    assert_eq!(e.add("a", 0), Ok(()));
    assert_eq!(format!("{:?}", e), "Exports { exports: [(\"a\", 0), (\"b\", 1)] }");
}

#[test]
fn scope_get_after_several_adds() {
    let mut s = Scope::root();
    s.add("a".to_string(), ScopeType::Let);
    s.add("b".to_string(), ScopeType::Let);
    s.add("a".to_string(), ScopeType::Let);
    assert_eq!(s.get("a"), Some(ScopeRecord { index: 2, typ: ScopeType::Let }));
    assert_eq!(s.get("b"), Some(ScopeRecord { index: 1, typ: ScopeType::Let }));
    assert_eq!(s.get("c"), None);
}
