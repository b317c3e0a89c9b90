use goblin::ast::{Binding, ParamResult};
use goblin::binding::{BindParamResult, Binding as SourceBinding};
use goblin::compiler::{BindingRecord, Compiler};
use goblin::ir::Param;
use goblin::source::Source;

#[test]
fn ast_compile_params() {
    let mut c = Compiler::new();
    let a = Binding::Identifier("a".to_string()).compile_param(&mut c);
    assert_eq!(a.param(), Param::Value);
    let v = Binding::VarIdentifier("v".to_string()).compile_param(&mut c);
    assert_eq!(v.param(), Param::Var);
    let d = Binding::DoIdentifier("d".to_string()).compile_param(&mut c);
    assert_eq!(d.param(), Param::Do);
    let parts = vec![("x".to_string(), Binding::Identifier("px".to_string()))];
    let r = Binding::Destructure(parts).compile_param(&mut c);
    assert_eq!(r.param(), Param::Value);
    match r {
        ParamResult::Destructure(addr, items) => {
            assert_eq!(addr, 3);
            assert_eq!(items, vec![("x".to_string(), Binding::Identifier("px".to_string()))]);
        }
        _ => panic!("expected a destructuring"),
    }
    assert_eq!(c.get(&"a".to_string()), Ok(BindingRecord::Local(0)));
    assert_eq!(c.get(&"v".to_string()), Ok(BindingRecord::Var(1)));
    assert_eq!(c.get(&"d".to_string()), Ok(BindingRecord::Do(2)));
}

#[test]
fn binding_bind_params() {
    let mut c = Compiler::new();
    let r = SourceBinding::Identifier("a".to_string(), Source::new(0, 1)).bind_param(&mut c);
    assert!(matches!(r, BindParamResult::Complete));
    let r = SourceBinding::Placeholder(Source::new(2, 1)).bind_param(&mut c);
    assert!(matches!(r, BindParamResult::Complete));
    let r = SourceBinding::Destructuring(vec![], Source::new(4, 3)).bind_param(&mut c);
    match r {
        BindParamResult::Destructuring(items, index) => {
            assert!(items.is_empty());
            assert_eq!(index, 2);
        }
        _ => panic!("expected a destructuring"),
    }
    assert_eq!(c.get(&"a".to_string()), Ok(BindingRecord::Local(0)));
}
