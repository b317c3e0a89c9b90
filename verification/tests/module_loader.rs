use goblin::frame::{Frame, FrameBuilder};
use goblin::ir::RuntimeError;
use goblin::module_loader::{ModuleLoad, ModuleLoader};
use goblin::parse_error::ParseError;
use goblin::source::Source;

#[test]
fn module_loader_ready_value() {
    let mut loader: ModuleLoader<Vec<u8>, i64> = ModuleLoader::new();
    loader.add_ready("native", 7);
    assert!(matches!(loader.load("native"), Ok(ModuleLoad::Ready(7))));
    assert!(matches!(loader.load("native"), Ok(ModuleLoad::Ready(7))));
}

#[test]
fn module_loader_unknown_module() {
    let mut loader: ModuleLoader<Vec<u8>, i64> = ModuleLoader::new();
    match loader.load("foo") {
        Err(e) => assert_eq!(e, RuntimeError::UnknownModule("foo".to_string())),
        Ok(_) => panic!("expected an error"),
    }
}

#[test]
fn module_loader_runs_code_once_then_loop() {
    let mut loader: ModuleLoader<Vec<u8>, i64> = ModuleLoader::new();
    loader.add_init("foo", vec![1, 2, 3]);
    match loader.load("foo") {
        Ok(ModuleLoad::Evaluate(code)) => assert_eq!(code, vec![1, 2, 3]),
        _ => panic!("expected the module's code"),
    }
    // asked for again while it runs: an import cycle
    match loader.load("foo") {
        Err(e) => assert_eq!(e, RuntimeError::ModuleLoadLoop("foo".to_string())),
        Ok(_) => panic!("expected a load loop"),
    }
    loader.add_ready("foo", 42);
    assert!(matches!(loader.load("foo"), Ok(ModuleLoad::Ready(42))));
}

#[test]
fn frame_builder_key() {
    let b: FrameBuilder<i64> = FrameBuilder::new();
    match b.build_key("none".to_string(), Source::new(0, 6)) {
        Ok(Frame::Key(k)) => assert_eq!(k, "none"),
        _ => panic!("expected a key frame"),
    }
}

#[test]
fn frame_builder_pairs_in_key_order() {
    let mut b: FrameBuilder<i64> = FrameBuilder::new();
    assert!(b.add_pair("y".to_string(), 2).is_ok());
    assert!(b.add_pair("x".to_string(), 1).is_ok());
    match b.build() {
        Ok(Frame::Pairs(sel, pairs)) => {
            assert_eq!(sel, "x:y:");
            assert_eq!(pairs, vec![("x".to_string(), 1), ("y".to_string(), 2)]);
        }
        _ => panic!("expected a pairs frame"),
    }
}

#[test]
fn frame_builder_duplicate_key() {
    let mut b: FrameBuilder<i64> = FrameBuilder::new();
    assert!(b.add_pair("x".to_string(), 1).is_ok());
    assert_eq!(b.add_pair("x".to_string(), 2), Err(ParseError::DuplicateKey("x".to_string())));
}

#[test]
fn frame_builder_key_after_pairs() {
    let mut b: FrameBuilder<i64> = FrameBuilder::new();
    assert!(b.add_pair("x".to_string(), 1).is_ok());
    let src = Source::new(3, 4);
    match b.build_key("y".to_string(), src) {
        Err(e) => assert_eq!(
            e,
            ParseError::WithSource(Box::new(ParseError::ExpectedPairGotKey("y".to_string())), src)
        ),
        Ok(_) => panic!("expected an error"),
    }
}
