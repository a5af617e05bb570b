//! The operand stack: one array of values shared by all activations, each
//! of which addresses it relative to its own frame.

use vstd::prelude::*;
use crate::value::{EngineError, Value};

verus! {

/// The cursor of one activation: the next instruction, the first slot of
/// its frame in the operand stack, and the number of values in its frame.
#[derive(Debug, Clone, Copy, PartialEq, Eq)]
pub struct Context {
    pub pc: usize,
    pub base: usize,
    pub index: usize,
}

impl Context {
    /// The cursor of an activation that starts at the bottom of the stack.
    pub fn new() -> (r: Context)
        ensures
            r == (Context { pc: 0, base: 0, index: 0 }),
    {
        Context { pc: 0, base: 0, index: 0 }
    }

    /// The position in the array of the first slot above the frame.
    pub open spec fn top(self) -> int {
        self.base + self.index
    }

    /// The cursor after the frame grew by one value.
    pub open spec fn grown(self) -> Context {
        Context { index: (self.index + 1) as usize, ..self }
    }

    /// The cursor after the frame shrank by one value.
    pub open spec fn shrunk(self) -> Context {
        Context { index: (self.index - 1) as usize, ..self }
    }

    /// The cursor moved to instruction `pc`.
    pub open spec fn at(self, pc: int) -> Context {
        Context { pc: pc as usize, ..self }
    }
}

/// The value on top of the frame of `ctx`: `StackUnderflow` for an empty
/// frame, `IndexOutOfRange` where the array does not reach the top of the
/// frame.
pub open spec fn peek(slots: Seq<Value>, ctx: Context) -> Result<Value, EngineError> {
    if ctx.index == 0 {
        Err(EngineError::StackUnderflow)
    } else if ctx.top() - 1 < slots.len() {
        Ok(slots[ctx.top() - 1])
    } else {
        Err(EngineError::IndexOutOfRange)
    }
}

/// `slots` with `v` written at `at`, which is a slot of the array or the
/// first position behind it.
pub open spec fn written(slots: Seq<Value>, at: int, v: Value) -> Seq<Value> {
    if at == slots.len() {
        slots.push(v)
    } else {
        slots.update(at, v)
    }
}

/// The operand stack. Its model is the whole array, including the slots
/// above every frame, which keep the values last written to them.
#[derive(Debug)]
pub struct Stack {
    values: Vec<Value>,
}

impl View for Stack {
    type V = Seq<Value>;

    closed spec fn view(&self) -> Seq<Value> {
        self.values@
    }
}

impl Stack {
    /// An empty stack.
    pub fn new() -> (r: Stack)
        ensures
            r@ == Seq::<Value>::empty(),
    {
        Stack { values: Vec::with_capacity(1000) }
    }

    /// The array is no longer than a machine word can count.
    pub proof fn lemma_len(&self)
        ensures
            self@.len() <= usize::MAX,
    {
        assert(self.values@.len() == self.values.len());
    }

    /// The number of slots of the array.
    pub fn len(&self) -> (r: usize)
        ensures
            r == self@.len(),
    {
        self.values.len()
    }

    /// Whether the array reaches the top of the frame of `ctx`, so that a
    /// value can be written there.
    pub fn fits(&self, ctx: &Context) -> (r: bool)
        ensures
            r == (ctx.top() <= self@.len()),
    {
        let len = self.values.len();
        match ctx.base.checked_add(ctx.index) {
            Some(at) => at <= len,
            None => false,
        }
    }

    /// A copy of the slots of the array from `from` up to, not including,
    /// `to`.
    pub(crate) fn copy_range(&self, from: usize, to: usize) -> (r: Vec<Value>)
        requires
            from <= to <= self@.len(),
        ensures
            r@ == self@.subrange(from as int, to as int),
    {
        let mut out: Vec<Value> = Vec::new();
        let mut i: usize = from;
        while i < to
            invariant
                from <= i <= to <= self.values@.len(),
                out@ == self.values@.subrange(from as int, i as int),
            decreases to - i,
        {
            out.push(self.values[i].clone());
            assert(self.values@.subrange(from as int, i + 1) =~= self.values@.subrange(
                from as int,
                i as int,
            ).push(self.values@[i as int]));
            i += 1;
        }
        out
    }

    /// The value in slot `i` of the frame of `ctx`. Fails with
    /// `IndexOutOfRange` when the array has no such slot.
    pub fn get(&self, ctx: &Context, i: usize) -> (r: Result<&Value, EngineError>)
        ensures
            r == (if ctx.base + i < self@.len() {
                Ok::<&Value, EngineError>(&self@[ctx.base + i])
            } else {
                Err(EngineError::IndexOutOfRange)
            }),
    {
        let len = self.values.len();
        match ctx.base.checked_add(i) {
            Some(at) => {
                if at < len {
                    Ok(&self.values[at])
                } else {
                    Err(EngineError::IndexOutOfRange)
                }
            },
            None => Err(EngineError::IndexOutOfRange),
        }
    }

    /// The value on top of the frame of `ctx`. Fails with `StackUnderflow`
    /// when the frame is empty, and with `IndexOutOfRange` when the array
    /// does not reach the top of the frame.
    pub fn top(&self, ctx: &Context) -> (r: Result<&Value, EngineError>)
        ensures
            match r {
                Ok(v) => peek(self@, *ctx) == Ok::<Value, EngineError>(*v),
                Err(e) => peek(self@, *ctx) == Err::<Value, EngineError>(e),
            },
    {
        if ctx.index == 0 {
            Err(EngineError::StackUnderflow)
        } else {
            self.get(ctx, ctx.index - 1)
        }
    }

    /// Writes `value` on top of the frame of `ctx` and lets the frame grow
    /// by one; the array grows if the frame ended where the array ends.
    /// Fails with `IndexOutOfRange`, changing nothing, when the top of the
    /// frame lies behind the end of the array.
    pub fn load(&mut self, ctx: &mut Context, value: Value) -> (r: Result<(), EngineError>)
        ensures
            r == (if old(ctx).top() <= old(self)@.len() {
                Ok::<(), EngineError>(())
            } else {
                Err(EngineError::IndexOutOfRange)
            }),
            r is Ok ==> final(self)@ == written(old(self)@, old(ctx).top(), value) && *final(ctx)
                == old(ctx).grown(),
            r is Err ==> final(self)@ == old(self)@ && *final(ctx) == *old(ctx),
    {
        let len = self.values.len();
        match ctx.base.checked_add(ctx.index) {
            Some(at) => {
                if at < len {
                    self.values.set(at, value);
                    ctx.index = ctx.index + 1;
                    Ok(())
                } else if at == len {
                    self.values.push(value);
                    let grown = self.values.len();
                    assert(ctx.index < grown);
                    ctx.index = ctx.index + 1;
                    Ok(())
                } else {
                    Err(EngineError::IndexOutOfRange)
                }
            },
            None => Err(EngineError::IndexOutOfRange),
        }
    }

    /// Overwrites slot `i` of the frame of `ctx` with `value`. Fails with
    /// `IndexOutOfRange`, changing nothing, when the array has no such slot.
    pub fn store(&mut self, ctx: &Context, i: usize, value: Value) -> (r: Result<(), EngineError>)
        ensures
            r == (if ctx.base + i < old(self)@.len() {
                Ok::<(), EngineError>(())
            } else {
                Err(EngineError::IndexOutOfRange)
            }),
            final(self)@ == (if r is Ok {
                old(self)@.update(ctx.base + i, value)
            } else {
                old(self)@
            }),
    {
        let len = self.values.len();
        match ctx.base.checked_add(i) {
            Some(at) => {
                if at < len {
                    self.values.set(at, value);
                    Ok(())
                } else {
                    Err(EngineError::IndexOutOfRange)
                }
            },
            None => Err(EngineError::IndexOutOfRange),
        }
    }

    /// Takes the value on top of the frame of `ctx` and lets the frame
    /// shrink by one. The array keeps the value in its slot, and no
    /// reference is given up: that is left to the caller. Fails as `top`
    /// does, changing nothing.
    pub fn pop(&mut self, ctx: &mut Context) -> (r: Result<Value, EngineError>)
        ensures
            r == peek(old(self)@, *old(ctx)),
            final(self)@ == old(self)@,
            *final(ctx) == (if r is Ok {
                old(ctx).shrunk()
            } else {
                *old(ctx)
            }),
    {
        match self.top(ctx) {
            Ok(v) => {
                let out = v.clone();
                ctx.index = ctx.index - 1;
                Ok(out)
            },
            Err(e) => Err(e),
        }
    }
}

} // verus!
