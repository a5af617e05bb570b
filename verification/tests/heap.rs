use minivm::code::{Block, CompiledCode};
use minivm::heap::{Heap, ValueObj};
use minivm::value::Value;

fn text(s: &str) -> ValueObj {
    ValueObj::String(String::from(s))
}

#[test]
fn allocation_hands_out_increasing_ids_counted_once() {
    let mut heap = Heap::new();
    assert_eq!(heap.next_id(), 0);
    assert_eq!(heap.new_value(text("a")), Value::Ptr(0));
    assert_eq!(heap.new_value(text("b")), Value::Ptr(1));
    assert_eq!(heap.next_id(), 2);
    assert_eq!(heap.refcount(0), Some(1));
    assert_eq!(heap.refcount(1), Some(1));
    assert_eq!(heap.get(0), Some(&text("a")));
    assert_eq!(heap.get(1), Some(&text("b")));
}

#[test]
fn ids_are_not_reused_after_release() {
    let mut heap = Heap::new();
    heap.new_value(text("a"));
    assert!(heap.release_id(0));
    assert_eq!(heap.get(0), None);
    assert_eq!(heap.new_value(text("b")), Value::Ptr(1));
    assert_eq!(heap.get(0), None);
}

#[test]
fn lookup_of_an_unknown_id_finds_nothing() {
    let heap = Heap::new();
    assert_eq!(heap.get(7), None);
    assert_eq!(heap.refcount(7), None);
}

#[test]
fn retain_raises_the_count_by_one() {
    let mut heap = Heap::new();
    heap.new_value(text("a"));
    assert!(heap.retain_id(0));
    assert_eq!(heap.refcount(0), Some(2));
    assert!(heap.retain(&Value::Ptr(0)));
    assert_eq!(heap.refcount(0), Some(3));
    assert_eq!(heap.get(0), Some(&text("a")));
}

#[test]
fn retain_of_an_unknown_id_fails_and_changes_nothing() {
    let mut heap = Heap::new();
    heap.new_value(text("a"));
    assert!(!heap.retain_id(5));
    assert!(!heap.retain(&Value::Ptr(5)));
    assert_eq!(heap.refcount(0), Some(1));
    assert_eq!(heap.refcount(5), None);
}

#[test]
fn scalars_are_not_counted_and_report_success() {
    let mut heap = Heap::new();
    heap.new_value(text("a"));
    for v in [
        Value::Unit,
        Value::Bool(true),
        Value::Int(0),
        Value::Prim(String::from("p")),
        Value::Absent,
    ] {
        assert!(heap.retain(&v));
        assert!(heap.release(&v));
    }
    assert_eq!(heap.refcount(0), Some(1));
}

#[test]
fn release_lowers_a_count_above_one() {
    let mut heap = Heap::new();
    heap.new_value(text("a"));
    heap.retain_id(0);
    heap.retain_id(0);
    assert!(heap.release_id(0));
    assert_eq!(heap.refcount(0), Some(2));
    assert!(heap.release(&Value::Ptr(0)));
    assert_eq!(heap.refcount(0), Some(1));
}

#[test]
fn release_of_the_last_reference_removes_the_object() {
    let mut heap = Heap::new();
    heap.new_value(text("a"));
    assert!(heap.release(&Value::Ptr(0)));
    assert_eq!(heap.get(0), None);
    assert_eq!(heap.refcount(0), None);
}

#[test]
fn release_of_an_unknown_id_fails_and_changes_nothing() {
    let mut heap = Heap::new();
    heap.new_value(text("a"));
    assert!(!heap.release_id(3));
    assert!(!heap.release(&Value::Ptr(3)));
    assert_eq!(heap.refcount(0), Some(1));
}

#[test]
fn retain_then_release_restores_the_count() {
    let mut heap = Heap::new();
    heap.new_value(text("a"));
    for _ in 0..5 {
        assert!(heap.retain_id(0));
    }
    assert_eq!(heap.refcount(0), Some(6));
    for _ in 0..5 {
        assert!(heap.release_id(0));
    }
    assert_eq!(heap.refcount(0), Some(1));
    assert_eq!(heap.get(0), Some(&text("a")));
}

#[test]
fn removing_a_struct_releases_its_fields() {
    let mut heap = Heap::new();
    heap.new_value(text("a"));
    heap.new_value(text("b"));
    heap.retain_id(1);
    let fields = vec![Value::Ptr(0), Value::Int(3), Value::Ptr(1)];
    assert_eq!(heap.new_value(ValueObj::Struct(fields)), Value::Ptr(2));
    assert!(heap.release_id(2));
    assert_eq!(heap.get(2), None);
    assert_eq!(heap.get(0), None);
    assert_eq!(heap.refcount(1), Some(1));
}

#[test]
fn removing_a_list_cell_releases_head_and_tail() {
    let mut heap = Heap::new();
    heap.new_value(text("head of second"));
    heap.new_value(ValueObj::List(Value::Ptr(0), None));
    heap.new_value(text("head of first"));
    heap.new_value(ValueObj::List(Value::Ptr(2), Some(1)));
    assert!(heap.release_id(3));
    assert_eq!(heap.get(3), None);
    assert_eq!(heap.get(2), None);
    assert_eq!(heap.get(1), None);
    assert_eq!(heap.get(0), None);
}

#[test]
fn a_shared_tail_survives_the_removal_of_one_list() {
    let mut heap = Heap::new();
    heap.new_value(ValueObj::List(Value::Int(2), None));
    heap.retain_id(0);
    heap.new_value(ValueObj::List(Value::Int(1), Some(0)));
    heap.new_value(ValueObj::List(Value::Int(0), Some(0)));
    assert!(heap.release_id(1));
    assert_eq!(heap.get(1), None);
    assert_eq!(heap.refcount(0), Some(1));
    assert!(heap.release_id(2));
    assert_eq!(heap.get(0), None);
}

#[test]
fn removing_a_present_value_releases_what_it_holds() {
    let mut heap = Heap::new();
    heap.new_value(text("a"));
    heap.new_value(ValueObj::Present(Value::Ptr(0)));
    assert!(heap.release_id(1));
    assert_eq!(heap.get(1), None);
    assert_eq!(heap.get(0), None);
}

#[test]
fn a_held_object_with_other_references_is_only_lowered() {
    let mut heap = Heap::new();
    heap.new_value(text("a"));
    heap.retain_id(0);
    heap.new_value(ValueObj::Present(Value::Ptr(0)));
    heap.retain_id(1);
    assert!(heap.release_id(1));
    assert_eq!(heap.refcount(1), Some(1));
    assert_eq!(heap.refcount(0), Some(2));
    assert!(heap.release_id(1));
    assert_eq!(heap.get(1), None);
    assert_eq!(heap.refcount(0), Some(1));
}

#[test]
fn a_dangling_pointer_inside_an_object_is_passed_over() {
    let mut heap = Heap::new();
    heap.new_value(text("a"));
    heap.new_value(ValueObj::Struct(vec![Value::Ptr(99), Value::Ptr(0)]));
    assert!(heap.release_id(1));
    assert_eq!(heap.get(1), None);
    assert_eq!(heap.get(0), None);
}

#[test]
fn an_object_that_points_to_itself_is_removed_once() {
    let mut heap = Heap::new();
    heap.new_value(ValueObj::Present(Value::Ptr(0)));
    assert!(heap.release_id(0));
    assert_eq!(heap.get(0), None);
}

#[test]
fn removing_a_block_releases_nothing_else() {
    let mut heap = Heap::new();
    heap.new_value(text("literal"));
    let mut code = CompiledCode::new();
    code.lits = vec![0];
    heap.new_value(ValueObj::Block(Block::new(code)));
    assert!(heap.release_id(1));
    assert_eq!(heap.get(1), None);
    assert_eq!(heap.refcount(0), Some(1));
}

#[test]
fn release_values_works_from_the_last_value_to_the_first() {
    let mut heap = Heap::new();
    heap.new_value(text("a"));
    heap.new_value(ValueObj::Present(Value::Ptr(0)));
    heap.retain_id(0);
    // The last value lowers object 0 to one reference; the first removes
    // object 1, which gives up the last reference to object 0.
    heap.release_values(vec![Value::Ptr(1), Value::Int(4), Value::Ptr(0)]);
    assert_eq!(heap.get(1), None);
    assert_eq!(heap.get(0), None);
    assert_eq!(heap.next_id(), 2);
}

#[test]
fn release_values_of_nothing_changes_nothing() {
    let mut heap = Heap::new();
    heap.new_value(text("a"));
    heap.release_values(Vec::new());
    assert_eq!(heap.refcount(0), Some(1));
}
