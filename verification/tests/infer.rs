use minivm::infer::{Infer, Tycon, Type};
use minivm::value::EngineError;

fn meta() -> Type {
    Type::Meta(None)
}

fn app(con: Tycon, args: Vec<usize>) -> Type {
    Type::App(con, args)
}

fn assoc(name: &str, ty: usize) -> Type {
    Type::Assoc { name: String::from(name), ty, default: None }
}

#[test]
fn add_returns_consecutive_indices() {
    let mut table = Infer::new();
    assert_eq!(table.get(0), None);
    assert_eq!(table.add(meta()), 0);
    assert_eq!(table.add(app(Tycon::Int, vec![])), 1);
    assert_eq!(table.get(0), Some(&meta()));
    assert_eq!(table.get(1), Some(&app(Tycon::Int, vec![])));
    assert_eq!(table.get(2), None);
}

#[test]
fn an_unbound_variable_is_bound_to_a_type() {
    let mut table = Infer::new();
    let v = table.add(meta());
    let int = table.add(app(Tycon::Int, vec![]));
    assert_eq!(table.infer(v, int), Ok(()));
    assert_eq!(table.get(v), Some(&Type::Meta(Some(int))));
    assert_eq!(table.get(int), Some(&app(Tycon::Int, vec![])));
}

#[test]
fn a_bound_variable_is_bound_anew_to_a_type() {
    let mut table = Infer::new();
    let int = table.add(app(Tycon::Int, vec![]));
    let boolean = table.add(app(Tycon::Bool, vec![]));
    let v = table.add(Type::Meta(Some(int)));
    assert_eq!(table.infer(v, boolean), Ok(()));
    assert_eq!(table.get(v), Some(&Type::Meta(Some(boolean))));
}

#[test]
fn a_type_against_a_variable_changes_nothing() {
    let mut table = Infer::new();
    let v = table.add(meta());
    let int = table.add(app(Tycon::Int, vec![]));
    assert_eq!(table.infer(int, v), Ok(()));
    assert_eq!(table.get(v), Some(&meta()));
}

#[test]
fn an_unbound_variable_takes_the_binding_of_a_bound_one() {
    let mut table = Infer::new();
    let int = table.add(app(Tycon::Int, vec![]));
    let bound = table.add(Type::Meta(Some(int)));
    let free = table.add(meta());
    assert_eq!(table.infer(bound, free), Ok(()));
    assert_eq!(table.get(free), Some(&Type::Meta(Some(int))));
    assert_eq!(table.get(bound), Some(&Type::Meta(Some(int))));
    let other = table.add(meta());
    assert_eq!(table.infer(other, bound), Ok(()));
    assert_eq!(table.get(other), Some(&Type::Meta(Some(int))));
}

#[test]
fn two_unbound_variables_are_joined() {
    let mut table = Infer::new();
    let a = table.add(meta());
    let b = table.add(meta());
    let int = table.add(app(Tycon::Int, vec![]));
    assert_eq!(table.infer(a, b), Ok(()));
    assert_eq!(table.get(a), Some(&Type::Meta(Some(b))));
    assert_eq!(table.get(b), Some(&meta()));
    // Binding the first afterwards binds both.
    assert_eq!(table.infer(a, int), Ok(()));
    assert_eq!(table.get(a), Some(&Type::Meta(Some(b))));
    assert_eq!(table.get(b), Some(&Type::Meta(Some(int))));
}

#[test]
fn binding_the_second_of_two_joined_variables_binds_both() {
    let mut table = Infer::new();
    let a = table.add(meta());
    let b = table.add(meta());
    let int = table.add(app(Tycon::Int, vec![]));
    assert_eq!(table.infer(a, b), Ok(()));
    assert_eq!(table.infer(b, int), Ok(()));
    assert_eq!(table.get(a), Some(&Type::Meta(Some(b))));
    assert_eq!(table.get(b), Some(&Type::Meta(Some(int))));
}

#[test]
fn joining_two_variables_twice_changes_nothing_more() {
    let mut table = Infer::new();
    let a = table.add(meta());
    let b = table.add(meta());
    let int = table.add(app(Tycon::Int, vec![]));
    assert_eq!(table.infer(a, b), Ok(()));
    assert_eq!(table.infer(a, b), Ok(()));
    assert_eq!(table.infer(b, a), Ok(()));
    assert_eq!(table.get(a), Some(&Type::Meta(Some(b))));
    assert_eq!(table.get(b), Some(&meta()));
    assert_eq!(table.infer(a, int), Ok(()));
    assert_eq!(table.get(b), Some(&Type::Meta(Some(int))));
}

#[test]
fn three_variables_joined_in_a_chain_are_bound_together() {
    let mut table = Infer::new();
    let a = table.add(meta());
    let b = table.add(meta());
    let c = table.add(meta());
    let int = table.add(app(Tycon::Int, vec![]));
    assert_eq!(table.infer(a, b), Ok(()));
    assert_eq!(table.infer(b, c), Ok(()));
    assert_eq!(table.infer(a, int), Ok(()));
    assert_eq!(table.get(a), Some(&Type::Meta(Some(b))));
    assert_eq!(table.get(b), Some(&Type::Meta(Some(c))));
    assert_eq!(table.get(c), Some(&Type::Meta(Some(int))));
}

#[test]
fn a_variable_bound_to_a_variable_outside_the_table_is_bound_anew() {
    let mut table = Infer::new();
    let int = table.add(app(Tycon::Int, vec![]));
    let v = table.add(Type::Meta(Some(9)));
    assert_eq!(table.infer(v, int), Ok(()));
    assert_eq!(table.get(v), Some(&Type::Meta(Some(int))));
}

#[test]
fn variables_bound_to_each_other_conflict_with_a_type() {
    let mut table = Infer::new();
    let a = table.add(Type::Meta(Some(1)));
    let b = table.add(Type::Meta(Some(0)));
    let int = table.add(app(Tycon::Int, vec![]));
    assert_eq!(table.infer(a, int), Err(EngineError::TypeConflict));
    assert_eq!(table.get(a), Some(&Type::Meta(Some(b))));
    assert_eq!(table.get(b), Some(&Type::Meta(Some(a))));
}

#[test]
fn a_variable_against_itself_stays_unbound() {
    let mut table = Infer::new();
    let a = table.add(meta());
    assert_eq!(table.infer(a, a), Ok(()));
    assert_eq!(table.get(a), Some(&meta()));
}

#[test]
fn two_bound_variables_unify_their_bindings() {
    let mut table = Infer::new();
    let inner = table.add(meta());
    let int = table.add(app(Tycon::Int, vec![]));
    let a = table.add(Type::Meta(Some(inner)));
    let b = table.add(Type::Meta(Some(int)));
    assert_eq!(table.infer(a, b), Ok(()));
    assert_eq!(table.get(inner), Some(&Type::Meta(Some(int))));
    assert_eq!(table.get(a), Some(&Type::Meta(Some(inner))));
    assert_eq!(table.get(b), Some(&Type::Meta(Some(int))));
}

#[test]
fn two_bound_variables_with_unlike_bindings_conflict() {
    let mut table = Infer::new();
    let int = table.add(app(Tycon::Int, vec![]));
    let boolean = table.add(app(Tycon::Bool, vec![]));
    let a = table.add(Type::Meta(Some(int)));
    let b = table.add(Type::Meta(Some(boolean)));
    assert_eq!(table.infer(a, b), Err(EngineError::TypeConflict));
}

#[test]
fn like_applications_unify_their_arguments_in_turn() {
    let mut table = Infer::new();
    let int = table.add(app(Tycon::Int, vec![]));
    let text = table.add(app(Tycon::String, vec![]));
    let k = table.add(meta());
    let v = table.add(meta());
    let expected = table.add(app(Tycon::Mapping, vec![k, v]));
    let actual = table.add(app(Tycon::Mapping, vec![text, int]));
    assert_eq!(table.infer(expected, actual), Ok(()));
    assert_eq!(table.get(k), Some(&Type::Meta(Some(text))));
    assert_eq!(table.get(v), Some(&Type::Meta(Some(int))));
}

#[test]
fn unlike_constructors_conflict() {
    let mut table = Infer::new();
    let int = table.add(app(Tycon::Int, vec![]));
    let boolean = table.add(app(Tycon::Bool, vec![]));
    assert_eq!(table.infer(int, boolean), Err(EngineError::TypeConflict));
    assert_eq!(table.infer(int, int), Ok(()));
}

#[test]
fn unlike_numbers_of_arguments_conflict() {
    let mut table = Infer::new();
    let int = table.add(app(Tycon::Int, vec![]));
    let one = table.add(app(Tycon::List, vec![int]));
    let two = table.add(app(Tycon::List, vec![int, int]));
    assert_eq!(table.infer(one, two), Err(EngineError::TypeConflict));
}

#[test]
fn what_was_bound_before_a_conflict_stays_bound() {
    let mut table = Infer::new();
    let int = table.add(app(Tycon::Int, vec![]));
    let boolean = table.add(app(Tycon::Bool, vec![]));
    let v = table.add(meta());
    let w = table.add(meta());
    let expected = table.add(app(Tycon::Struct, vec![v, int, w]));
    let actual = table.add(app(Tycon::Struct, vec![int, boolean, int]));
    assert_eq!(table.infer(expected, actual), Err(EngineError::TypeConflict));
    assert_eq!(table.get(v), Some(&Type::Meta(Some(int))));
    assert_eq!(table.get(w), Some(&meta()));
}

#[test]
fn associations_of_one_name_unify_their_types() {
    let mut table = Infer::new();
    let int = table.add(app(Tycon::Int, vec![]));
    let v = table.add(meta());
    let expected = table.add(assoc("size", v));
    let actual = table.add(Type::Assoc {
        name: String::from("size"),
        ty: int,
        default: Some(int),
    });
    assert_eq!(table.infer(expected, actual), Ok(()));
    assert_eq!(table.get(v), Some(&Type::Meta(Some(int))));
}

#[test]
fn associations_of_unlike_names_conflict() {
    let mut table = Infer::new();
    let int = table.add(app(Tycon::Int, vec![]));
    let a = table.add(assoc("size", int));
    let b = table.add(assoc("length", int));
    assert_eq!(table.infer(a, b), Err(EngineError::TypeConflict));
}

#[test]
fn an_application_against_an_association_conflicts() {
    let mut table = Infer::new();
    let int = table.add(app(Tycon::Int, vec![]));
    let a = table.add(assoc("size", int));
    assert_eq!(table.infer(int, a), Err(EngineError::TypeConflict));
    assert_eq!(table.infer(a, int), Err(EngineError::TypeConflict));
}

#[test]
fn an_index_outside_the_table_is_out_of_range() {
    let mut table = Infer::new();
    let v = table.add(meta());
    assert_eq!(table.infer(v, 5), Err(EngineError::IndexOutOfRange));
    assert_eq!(table.infer(5, v), Err(EngineError::IndexOutOfRange));
    assert_eq!(table.get(v), Some(&meta()));
    let dangling = table.add(app(Tycon::List, vec![9]));
    let other = table.add(app(Tycon::List, vec![v]));
    assert_eq!(table.infer(dangling, other), Err(EngineError::IndexOutOfRange));
}

#[test]
fn a_type_that_contains_itself_ends_in_a_conflict() {
    let mut table = Infer::new();
    // Two variables bound to each other: unifying them never reaches a type.
    let a = table.add(Type::Meta(Some(1)));
    let b = table.add(Type::Meta(Some(0)));
    assert_eq!(table.infer(a, b), Err(EngineError::TypeConflict));
    assert_eq!(table.get(a), Some(&Type::Meta(Some(1))));
    assert_eq!(table.get(b), Some(&Type::Meta(Some(0))));
}

#[test]
fn a_deep_type_that_does_not_contain_itself_unifies() {
    let mut table = Infer::new();
    let int = table.add(app(Tycon::Int, vec![]));
    let mut actual = int;
    for _ in 0..20 {
        actual = table.add(app(Tycon::List, vec![actual]));
    }
    let hole = table.add(meta());
    let mut expected = hole;
    for _ in 0..20 {
        expected = table.add(app(Tycon::List, vec![expected]));
    }
    assert_eq!(table.infer(expected, actual), Ok(()));
    assert_eq!(table.get(hole), Some(&Type::Meta(Some(int))));
}
