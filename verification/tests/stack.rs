use minivm::stack::{Context, Stack};
use minivm::value::{EngineError, Value};

#[test]
fn a_new_context_starts_at_the_bottom() {
    assert_eq!(Context::new(), Context { pc: 0, base: 0, index: 0 });
}

#[test]
fn load_writes_at_the_top_and_grows_the_frame() {
    let mut stack = Stack::new();
    let mut ctx = Context::new();
    assert_eq!(stack.len(), 0);
    assert_eq!(stack.load(&mut ctx, Value::Int(1)), Ok(()));
    assert_eq!(stack.load(&mut ctx, Value::Int(2)), Ok(()));
    assert_eq!(ctx, Context { pc: 0, base: 0, index: 2 });
    assert_eq!(stack.len(), 2);
    assert_eq!(stack.get(&ctx, 0), Ok(&Value::Int(1)));
    assert_eq!(stack.get(&ctx, 1), Ok(&Value::Int(2)));
    assert_eq!(stack.top(&ctx), Ok(&Value::Int(2)));
}

#[test]
fn pop_returns_the_top_and_shrinks_the_frame() {
    let mut stack = Stack::new();
    let mut ctx = Context::new();
    stack.load(&mut ctx, Value::Int(1)).unwrap();
    stack.load(&mut ctx, Value::Bool(true)).unwrap();
    assert_eq!(stack.pop(&mut ctx), Ok(Value::Bool(true)));
    assert_eq!(ctx.index, 1);
    assert_eq!(stack.top(&ctx), Ok(&Value::Int(1)));
    assert_eq!(stack.pop(&mut ctx), Ok(Value::Int(1)));
    assert_eq!(ctx.index, 0);
}

#[test]
fn pop_on_an_empty_frame_underflows_and_changes_nothing() {
    let mut stack = Stack::new();
    let mut ctx = Context::new();
    assert_eq!(stack.pop(&mut ctx), Err(EngineError::StackUnderflow));
    assert_eq!(stack.top(&ctx), Err(EngineError::StackUnderflow));
    assert_eq!(ctx, Context::new());
    assert_eq!(stack.len(), 0);
}

#[test]
fn an_empty_frame_above_a_caller_underflows_too() {
    let mut stack = Stack::new();
    let mut caller = Context::new();
    stack.load(&mut caller, Value::Int(1)).unwrap();
    let mut callee = Context { pc: 0, base: 1, index: 0 };
    assert_eq!(stack.pop(&mut callee), Err(EngineError::StackUnderflow));
    assert_eq!(stack.top(&caller), Ok(&Value::Int(1)));
}

#[test]
fn the_array_keeps_a_popped_value_in_its_slot() {
    let mut stack = Stack::new();
    let mut ctx = Context::new();
    stack.load(&mut ctx, Value::Int(1)).unwrap();
    stack.load(&mut ctx, Value::Int(2)).unwrap();
    stack.pop(&mut ctx).unwrap();
    assert_eq!(stack.len(), 2);
    assert_eq!(stack.get(&ctx, 1), Ok(&Value::Int(2)));
    stack.load(&mut ctx, Value::Int(3)).unwrap();
    assert_eq!(stack.len(), 2);
    assert_eq!(stack.get(&ctx, 1), Ok(&Value::Int(3)));
}

#[test]
fn get_behind_the_array_is_out_of_range() {
    let mut stack = Stack::new();
    let mut ctx = Context::new();
    stack.load(&mut ctx, Value::Int(1)).unwrap();
    assert_eq!(stack.get(&ctx, 1), Err(EngineError::IndexOutOfRange));
    assert_eq!(stack.get(&ctx, usize::MAX), Err(EngineError::IndexOutOfRange));
    let far = Context { pc: 0, base: usize::MAX, index: 0 };
    assert_eq!(stack.get(&far, 1), Err(EngineError::IndexOutOfRange));
}

#[test]
fn slots_are_addressed_relative_to_the_frame() {
    let mut stack = Stack::new();
    let mut caller = Context::new();
    stack.load(&mut caller, Value::Int(10)).unwrap();
    stack.load(&mut caller, Value::Int(11)).unwrap();
    let mut callee = Context { pc: 0, base: 2, index: 0 };
    stack.load(&mut callee, Value::Int(20)).unwrap();
    assert_eq!(stack.get(&callee, 0), Ok(&Value::Int(20)));
    assert_eq!(stack.top(&callee), Ok(&Value::Int(20)));
    assert_eq!(stack.get(&caller, 0), Ok(&Value::Int(10)));
    assert_eq!(stack.top(&caller), Ok(&Value::Int(11)));
    assert_eq!(stack.len(), 3);
}

#[test]
fn store_overwrites_an_existing_slot() {
    let mut stack = Stack::new();
    let mut ctx = Context::new();
    stack.load(&mut ctx, Value::Int(1)).unwrap();
    stack.load(&mut ctx, Value::Int(2)).unwrap();
    assert_eq!(stack.store(&ctx, 0, Value::Unit), Ok(()));
    assert_eq!(stack.get(&ctx, 0), Ok(&Value::Unit));
    assert_eq!(stack.get(&ctx, 1), Ok(&Value::Int(2)));
    assert_eq!(ctx.index, 2);
}

#[test]
fn store_behind_the_array_is_out_of_range_and_changes_nothing() {
    let mut stack = Stack::new();
    let mut ctx = Context::new();
    stack.load(&mut ctx, Value::Int(1)).unwrap();
    assert_eq!(stack.store(&ctx, 1, Value::Unit), Err(EngineError::IndexOutOfRange));
    assert_eq!(stack.len(), 1);
    assert_eq!(stack.get(&ctx, 0), Ok(&Value::Int(1)));
}

#[test]
fn load_behind_the_end_of_the_array_is_out_of_range() {
    let mut stack = Stack::new();
    let mut ctx = Context { pc: 0, base: 3, index: 0 };
    assert!(!stack.fits(&ctx));
    assert_eq!(stack.load(&mut ctx, Value::Unit), Err(EngineError::IndexOutOfRange));
    assert_eq!(ctx, Context { pc: 0, base: 3, index: 0 });
    assert_eq!(stack.len(), 0);
    let mut wide = Context { pc: 0, base: usize::MAX, index: 1 };
    assert!(!stack.fits(&wide));
    assert_eq!(stack.load(&mut wide, Value::Unit), Err(EngineError::IndexOutOfRange));
}

#[test]
fn top_of_a_frame_that_the_array_does_not_reach_is_out_of_range() {
    let stack = Stack::new();
    let ctx = Context { pc: 0, base: 0, index: 2 };
    assert_eq!(stack.top(&ctx), Err(EngineError::IndexOutOfRange));
}

#[test]
fn fits_says_whether_the_top_can_be_written() {
    let mut stack = Stack::new();
    let mut ctx = Context::new();
    assert!(stack.fits(&ctx));
    stack.load(&mut ctx, Value::Unit).unwrap();
    assert!(stack.fits(&ctx));
    assert!(stack.fits(&Context::new()));
    assert!(!stack.fits(&Context { pc: 0, base: 1, index: 1 }));
}
