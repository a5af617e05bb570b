use minivm::env::Env;
use minivm::value::Value;

fn name(s: &str) -> String {
    String::from(s)
}

#[test]
fn a_new_environment_binds_nothing() {
    let env = Env::new();
    assert_eq!(env.get(&name("x")), None);
}

#[test]
fn bind_then_get_gives_the_value() {
    let mut env = Env::new();
    assert_eq!(env.bind(name("x"), Value::Int(1)), None);
    assert_eq!(env.bind(name("y"), Value::Bool(false)), None);
    assert_eq!(env.get(&name("x")), Some(Value::Int(1)));
    assert_eq!(env.get(&name("y")), Some(Value::Bool(false)));
    assert_eq!(env.get(&name("z")), None);
}

#[test]
fn binding_again_replaces_and_returns_the_previous_value() {
    let mut env = Env::new();
    env.bind(name("x"), Value::Int(1));
    env.bind(name("y"), Value::Int(2));
    assert_eq!(env.bind(name("x"), Value::Ptr(9)), Some(Value::Int(1)));
    assert_eq!(env.get(&name("x")), Some(Value::Ptr(9)));
    assert_eq!(env.get(&name("y")), Some(Value::Int(2)));
    assert_eq!(env.bind(name("x"), Value::Unit), Some(Value::Ptr(9)));
    assert_eq!(env.get(&name("x")), Some(Value::Unit));
}

#[test]
fn names_are_told_apart_exactly() {
    let mut env = Env::new();
    env.bind(name("x"), Value::Int(1));
    assert_eq!(env.get(&name("X")), None);
    assert_eq!(env.get(&name("")), None);
    env.bind(name(""), Value::Int(2));
    assert_eq!(env.get(&name("")), Some(Value::Int(2)));
    assert_eq!(env.get(&name("x")), Some(Value::Int(1)));
}

#[test]
fn a_copy_does_not_follow_its_source() {
    let mut env = Env::new();
    env.bind(name("x"), Value::Int(1));
    let mut copy = env.clone();
    env.bind(name("x"), Value::Int(2));
    copy.bind(name("y"), Value::Int(3));
    assert_eq!(copy.get(&name("x")), Some(Value::Int(1)));
    assert_eq!(env.get(&name("x")), Some(Value::Int(2)));
    assert_eq!(env.get(&name("y")), None);
    assert_eq!(copy.get(&name("y")), Some(Value::Int(3)));
}
