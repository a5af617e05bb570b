//! The machine as a mathematical object, and what one instruction does to
//! it. The executable engine is proved to follow these definitions.

use vstd::prelude::*;
use crate::code::{BlockView, CodeView, Opcode};
use crate::heap::{release_all, released, retained, ObjView, RefView};
use crate::stack::{peek, written, Context};
use crate::value::{EngineError, Id, Value};

verus! {

/// One activation: the code it runs, its cursor, and the index of its
/// environment in the machine's table of environments.
pub struct FrameView {
    pub code: CodeView,
    pub ctx: Context,
    pub env: usize,
}

impl FrameView {
    /// The activation with its cursor replaced.
    pub open spec fn with_ctx(self, ctx: Context) -> FrameView {
        FrameView { ctx, ..self }
    }

    /// The activation moved on to its next instruction.
    pub open spec fn advanced(self) -> FrameView {
        self.with_ctx(self.ctx.at(self.ctx.pc + 1))
    }

    /// The activation after one value left its frame.
    pub open spec fn shrunk(self) -> FrameView {
        self.with_ctx(self.ctx.shrunk())
    }
}

/// The whole state of an interpreter.
pub struct Machine {
    /// The heap objects with their reference counts.
    pub heap: Map<Id, RefView>,
    /// The id of the next object to be allocated.
    pub next_id: Id,
    /// The operand stack, as the whole array.
    pub stack: Seq<Value>,
    /// Every environment that was ever created, by index.
    pub envs: Seq<Map<Seq<char>, Value>>,
    /// The live activations, the running one last.
    pub frames: Seq<FrameView>,
    /// The names of the registered primitives.
    pub prims: Set<Seq<char>>,
}

impl Machine {
    /// The machine is one that an interpreter can be in: its heap is
    /// finite, and its stack, its table of environments and the code of
    /// its activations are no longer than a machine word can count.
    pub open spec fn wf(self) -> bool {
        &&& self.heap.dom().finite()
        &&& self.stack.len() <= usize::MAX
        &&& self.envs.len() <= usize::MAX
        &&& forall|i: int|
            0 <= i < self.frames.len() ==> (#[trigger] self.frames[i]).code.ops.len() <= usize::MAX
    }
}

/// How a step, or a run of steps, ended.
pub enum Outcome {
    /// An activation is live and can run on.
    Running,
    /// The outermost activation returned this value.
    Finished(Value),
    /// An instruction failed; every activation has ended.
    Failed(EngineError),
    /// The primitive of this name is to be called with these arguments.
    Calling(Seq<char>, Seq<Value>),
}

/// What a primitive left behind: the heap after the call, and its result.
pub struct Reply {
    pub heap: Map<Id, RefView>,
    pub next_id: Id,
    pub result: Result<Value, EngineError>,
}

/// A failure ends every activation and changes nothing else.
pub open spec fn fail(m: Machine, e: EngineError) -> (Machine, Outcome) {
    (Machine { frames: Seq::empty(), ..m }, Outcome::Failed(e))
}

/// The activation `f` runs on, above the activations of `m`.
pub open spec fn resume(m: Machine, f: FrameView) -> (Machine, Outcome) {
    (Machine { frames: m.frames.push(f), ..m }, Outcome::Running)
}

/// Writes `v` on top of the frame of `f`, which then runs on at `f`'s
/// cursor. Fails with `IndexOutOfRange` where the array does not reach the
/// top of the frame.
pub open spec fn push(m: Machine, f: FrameView, v: Value) -> (Machine, Outcome) {
    if f.ctx.top() <= m.stack.len() {
        resume(
            Machine { stack: written(m.stack, f.ctx.top(), v), ..m },
            f.with_ctx(f.ctx.grown()),
        )
    } else {
        fail(m, EngineError::IndexOutOfRange)
    }
}

/// `LoadLit`: pushes a pointer to the literal at `i`, without counting a
/// reference. Fails with `IndexOutOfRange` where the pool has no such
/// literal.
pub open spec fn load_lit(m: Machine, f: FrameView, i: u8) -> (Machine, Outcome) {
    if i < f.code.lits.len() {
        push(m, f.advanced(), Value::Ptr(f.code.lits[i as int]))
    } else {
        fail(m, EngineError::IndexOutOfRange)
    }
}

/// `LoadTemp`: pushes the value that `name` is bound to, and counts one
/// more reference if it is a pointer. Fails with `IndexOutOfRange` where the
/// activation has no environment or the array does not reach the top of
/// the frame, `UnboundVariable` where the name is not bound,
/// `UnknownHeapId` where the value points to no object, and
/// `LimitExceeded` where the object's count cannot grow.
pub open spec fn load_temp(m: Machine, f: FrameView, name: Seq<char>) -> (Machine, Outcome) {
    if f.env >= m.envs.len() || f.ctx.top() > m.stack.len() {
        fail(m, EngineError::IndexOutOfRange)
    } else if !m.envs[f.env as int].contains_key(name) {
        fail(m, EngineError::UnboundVariable)
    } else {
        let v = m.envs[f.env as int][name];
        match v {
            Value::Ptr(id) => if !m.heap.contains_key(id) {
                fail(m, EngineError::UnknownHeapId)
            } else if m.heap[id].count == usize::MAX {
                fail(m, EngineError::LimitExceeded)
            } else {
                push(Machine { heap: retained(m.heap, id), ..m }, f.advanced(), v)
            },
            _ => push(m, f.advanced(), v),
        }
    }
}

/// `StorePop`: takes the top value and binds `name` to it; the value that
/// the name was bound to before gives up one reference. Fails as taking a
/// value fails, and with `IndexOutOfRange` where the activation has no
/// environment.
pub open spec fn store_pop(m: Machine, f: FrameView, name: Seq<char>) -> (Machine, Outcome) {
    match peek(m.stack, f.ctx) {
        Err(e) => fail(m, e),
        Ok(v) => if f.env >= m.envs.len() {
            fail(m, EngineError::IndexOutOfRange)
        } else {
            let env = m.envs[f.env as int];
            resume(
                Machine {
                    heap: if env.contains_key(name) {
                        released(m.heap, env[name])
                    } else {
                        m.heap
                    },
                    envs: m.envs.update(f.env as int, env.insert(name, v)),
                    ..m
                },
                f.shrunk().advanced(),
            )
        },
    }
}

/// `Pop`: takes the top value, which gives up one reference. Fails as
/// taking a value fails.
pub open spec fn discard(m: Machine, f: FrameView) -> (Machine, Outcome) {
    match peek(m.stack, f.ctx) {
        Err(e) => fail(m, e),
        Ok(v) => resume(Machine { heap: released(m.heap, v), ..m }, f.shrunk().advanced()),
    }
}

/// `BranchTrue` (`wanted` true) and `BranchFalse` (`wanted` false): looks
/// at the top value without taking it. Where it is the wanted boolean, the
/// activation goes to `target`, which must be a loop header, or the
/// instruction fails with `MalformedJumpTarget`; where it is the other
/// boolean, the activation moves on. Fails with `TypeMismatch` where the
/// value is no boolean, and as looking at a value fails.
pub open spec fn branch(m: Machine, f: FrameView, wanted: bool, target: u16) -> (Machine, Outcome) {
    match peek(m.stack, f.ctx) {
        Err(e) => fail(m, e),
        Ok(Value::Bool(b)) => if b != wanted {
            resume(m, f.advanced())
        } else if f.code.is_loop_head(target as int) {
            resume(m, f.with_ctx(f.ctx.at(target as int)))
        } else {
            fail(m, EngineError::MalformedJumpTarget)
        },
        Ok(_) => fail(m, EngineError::TypeMismatch),
    }
}

/// `Jump`: the activation goes to the instruction that lies `offset` behind
/// the one that follows the jump. The end of the code is a target; a place
/// before the code or behind its end fails with `MalformedJumpTarget`.
pub open spec fn jump(m: Machine, f: FrameView, offset: i16) -> (Machine, Outcome) {
    let target = f.ctx.pc + 1 + offset;
    if 0 <= target <= f.code.ops.len() {
        resume(m, f.with_ctx(f.ctx.at(target)))
    } else {
        fail(m, EngineError::MalformedJumpTarget)
    }
}

/// `Not`: replaces the boolean on top by its negation. Fails with
/// `TypeMismatch` where the top value is no boolean, and as taking a value
/// fails.
pub open spec fn negate(m: Machine, f: FrameView) -> (Machine, Outcome) {
    match peek(m.stack, f.ctx) {
        Err(e) => fail(m, e),
        Ok(Value::Bool(b)) => push(m, f.shrunk().advanced(), Value::Bool(!b)),
        Ok(_) => fail(m, EngineError::TypeMismatch),
    }
}

/// What a comparison instruction says of `a` and `b`, where `a` was pushed
/// first. `Eq` and `Neq` take two booleans or two integers; the ordering
/// instructions take two integers. Other instructions and other operands
/// give nothing.
pub open spec fn compared(op: Opcode, a: Value, b: Value) -> Option<bool> {
    match (op, a, b) {
        (Opcode::Eq, Value::Bool(x), Value::Bool(y)) => Some(x == y),
        (Opcode::Eq, Value::Int(x), Value::Int(y)) => Some(x == y),
        (Opcode::Neq, Value::Bool(x), Value::Bool(y)) => Some(x != y),
        (Opcode::Neq, Value::Int(x), Value::Int(y)) => Some(x != y),
        (Opcode::Lt, Value::Int(x), Value::Int(y)) => Some(x < y),
        (Opcode::Le, Value::Int(x), Value::Int(y)) => Some(x <= y),
        (Opcode::Gt, Value::Int(x), Value::Int(y)) => Some(x > y),
        (Opcode::Ge, Value::Int(x), Value::Int(y)) => Some(x >= y),
        _ => None,
    }
}

/// `Eq`, `Neq`, `Lt`, `Le`, `Gt`, `Ge`: takes two values and pushes what
/// the comparison says of them. Fails with `TypeMismatch` where it says
/// nothing, and as taking a value fails.
pub open spec fn compare(m: Machine, f: FrameView, op: Opcode) -> (Machine, Outcome) {
    match peek(m.stack, f.ctx) {
        Err(e) => fail(m, e),
        Ok(b) => match peek(m.stack, f.ctx.shrunk()) {
            Err(e) => fail(m, e),
            Ok(a) => match compared(op, a, b) {
                Some(r) => push(m, f.shrunk().shrunk().advanced(), Value::Bool(r)),
                None => fail(m, EngineError::TypeMismatch),
            },
        },
    }
}

/// The number of `MakeBlock` instructions among the first `n` instructions
/// of `ops`.
pub open spec fn makers_before(ops: Seq<Opcode>, n: nat) -> nat
    decreases n,
{
    if n == 0 {
        0
    } else {
        makers_before(ops, (n - 1) as nat) + (if ops[n - 1] is MakeBlock {
            1nat
        } else {
            0nat
        })
    }
}

/// `MakeBlock`: allocates a block that pairs the code of a literal with
/// the environment of the activation, and pushes the pointer to it. The
/// literal is found by position: the first `MakeBlock` of the code has the
/// pool's first literal, the second the second, and so on. Nothing is
/// taken from the frame, and the literal's count stays as it is. Fails
/// with `IndexOutOfRange` where the pool has no such literal or the array
/// does not reach the top of the frame, `UnknownHeapId` where the literal
/// points to no object, `TypeMismatch` where it points to no block, and
/// `LimitExceeded` where no id is left.
pub open spec fn make_block(m: Machine, f: FrameView) -> (Machine, Outcome) {
    let k = makers_before(f.code.ops, f.ctx.pc as nat);
    if f.ctx.top() > m.stack.len() || k >= f.code.lits.len() {
        fail(m, EngineError::IndexOutOfRange)
    } else {
        let id = f.code.lits[k as int];
        if !m.heap.contains_key(id) {
            fail(m, EngineError::UnknownHeapId)
        } else {
            match m.heap[id].obj {
                ObjView::Block(b) => if m.next_id == usize::MAX {
                    fail(m, EngineError::LimitExceeded)
                } else {
                    let closure = BlockView { code: b.code, env: Some(f.env) };
                    push(
                        Machine {
                            heap: m.heap.insert(
                                m.next_id,
                                RefView { count: 1, obj: ObjView::Block(closure) },
                            ),
                            next_id: (m.next_id + 1) as usize,
                            ..m
                        },
                        f.advanced(),
                        Value::Ptr(m.next_id),
                    )
                },
                _ => fail(m, EngineError::TypeMismatch),
            }
        }
    }
}

/// The activation `f` ends with `result`, and the lowest `dropped` values
/// of its frame give up their references. Without a caller the run is
/// finished; otherwise the result is pushed on the caller's frame. Fails
/// with `IndexOutOfRange` where the array does not reach the top of either
/// frame.
pub open spec fn leave(m: Machine, f: FrameView, result: Value, dropped: int) -> (Machine, Outcome) {
    if f.ctx.top() > m.stack.len() {
        fail(m, EngineError::IndexOutOfRange)
    } else {
        let heap = release_all(m.heap, m.stack.subrange(f.ctx.base as int, f.ctx.base + dropped));
        if m.frames.len() == 0 {
            (Machine { heap, ..m }, Outcome::Finished(result))
        } else {
            let caller = m.frames.last();
            if caller.ctx.top() > m.stack.len() {
                fail(m, EngineError::IndexOutOfRange)
            } else {
                (
                    Machine {
                        heap,
                        stack: written(m.stack, caller.ctx.top(), result),
                        frames: m.frames.drop_last().push(caller.with_ctx(caller.ctx.grown())),
                        ..m
                    },
                    Outcome::Running,
                )
            }
        }
    }
}

/// `Return`: the activation ends with the top value of its frame; the
/// values below it give up their references. Fails as looking at a value
/// fails.
pub open spec fn ret(m: Machine, f: FrameView) -> (Machine, Outcome) {
    match peek(m.stack, f.ctx) {
        Err(e) => fail(m, e),
        Ok(v) => leave(m, f, v, f.ctx.index - 1),
    }
}

/// `env` with each of `params` bound to the argument at its position, the
/// first parameter first.
pub open spec fn bind_args(env: Map<Seq<char>, Value>, params: Seq<String>, args: Seq<Value>) -> Map<
    Seq<char>,
    Value,
>
    decreases params.len(),
{
    if params.len() == 0 {
        env
    } else {
        bind_args(env.insert(params[0]@, args[0]), params.drop_first(), args.drop_first())
    }
}

/// The environment in which a block begins: a copy of the one it captured,
/// or an empty one. Nothing where the captured environment does not exist.
pub open spec fn captured(m: Machine, b: BlockView) -> Option<Map<Seq<char>, Value>> {
    match b.env {
        None => Some(Map::empty()),
        Some(e) => if e < m.envs.len() {
            Some(m.envs[e as int])
        } else {
            None
        },
    }
}

/// `Apply`: takes the callee, then `n` arguments, of which the one pushed
/// first is the first. A registered primitive is to be called; a block
/// begins a new activation on an empty frame above the caller's, in a copy
/// of its captured environment with its parameters bound to the arguments.
/// Fails with `StackUnderflow` where the frame holds fewer values,
/// `UnknownPrimitive` where the primitive is not registered,
/// `UnknownHeapId` where the callee points to no object, `TypeMismatch`
/// where the callee is neither, or the block declares another number of
/// parameters, and `IndexOutOfRange` where the block's environment does not
/// exist or the array does not reach the top of the frame.
pub open spec fn apply(m: Machine, f: FrameView, n: u8) -> (Machine, Outcome) {
    match peek(m.stack, f.ctx) {
        Err(e) => fail(m, e),
        Ok(callee) => if f.ctx.index - 1 < n {
            fail(m, EngineError::StackUnderflow)
        } else {
            let rest = f.with_ctx(
                Context { index: (f.ctx.index - 1 - n) as usize, ..f.ctx },
            ).advanced();
            let args = m.stack.subrange(rest.ctx.top(), rest.ctx.top() + n);
            match callee {
                Value::Prim(name) => if m.prims.contains(name@) {
                    (Machine { frames: m.frames.push(rest), ..m }, Outcome::Calling(name@, args))
                } else {
                    fail(m, EngineError::UnknownPrimitive)
                },
                Value::Ptr(id) => if !m.heap.contains_key(id) {
                    fail(m, EngineError::UnknownHeapId)
                } else {
                    match m.heap[id].obj {
                        ObjView::Block(b) => if b.code.params.len() != n {
                            fail(m, EngineError::TypeMismatch)
                        } else {
                            match captured(m, b) {
                                None => fail(m, EngineError::IndexOutOfRange),
                                Some(env) => resume(
                                    Machine {
                                        envs: m.envs.push(bind_args(env, b.code.params, args)),
                                        frames: m.frames.push(rest),
                                        ..m
                                    },
                                    FrameView {
                                        code: b.code,
                                        ctx: Context {
                                            pc: 0,
                                            base: rest.ctx.top() as usize,
                                            index: 0,
                                        },
                                        env: m.envs.len() as usize,
                                    },
                                ),
                            }
                        },
                        _ => fail(m, EngineError::TypeMismatch),
                    }
                },
                _ => fail(m, EngineError::TypeMismatch),
            }
        },
    }
}

/// What instruction `op` of the activation `f` does, where `m` holds the
/// activations below `f`.
pub open spec fn execute(m: Machine, f: FrameView, op: Opcode) -> (Machine, Outcome) {
    match op {
        Opcode::Nop => resume(m, f.advanced()),
        Opcode::LoopHead => resume(m, f.advanced()),
        Opcode::LoadUnit => push(m, f.advanced(), Value::Unit),
        Opcode::LoadTrue => push(m, f.advanced(), Value::Bool(true)),
        Opcode::LoadFalse => push(m, f.advanced(), Value::Bool(false)),
        Opcode::LoadInt(n) => push(m, f.advanced(), Value::Int(n)),
        Opcode::LoadPrim(name) => push(m, f.advanced(), Value::Prim(name)),
        Opcode::LoadLit(i) => load_lit(m, f, i),
        Opcode::LoadTemp(name) => load_temp(m, f, name@),
        Opcode::StorePop(name) => store_pop(m, f, name@),
        Opcode::Pop => discard(m, f),
        Opcode::Return => ret(m, f),
        Opcode::Jump(offset) => jump(m, f, offset),
        Opcode::BranchTrue(target) => branch(m, f, true, target),
        Opcode::BranchFalse(target) => branch(m, f, false, target),
        Opcode::Apply(n) => apply(m, f, n),
        Opcode::MakeBlock => make_block(m, f),
        Opcode::Not => negate(m, f),
        Opcode::Eq | Opcode::Neq | Opcode::Lt | Opcode::Le | Opcode::Gt | Opcode::Ge => compare(
            m,
            f,
            op,
        ),
    }
}

/// One step of the machine: the running activation executes the
/// instruction under its cursor, or ends with `Unit` where the cursor has
/// left the code. A machine without an activation is finished, with `Unit`.
pub open spec fn step(m: Machine) -> (Machine, Outcome) {
    if m.frames.len() == 0 {
        (m, Outcome::Finished(Value::Unit))
    } else {
        let f = m.frames.last();
        let below = Machine { frames: m.frames.drop_last(), ..m };
        if f.ctx.pc >= f.code.ops.len() {
            leave(below, f, Value::Unit, f.ctx.index as int)
        } else {
            execute(below, f, f.code.ops[f.ctx.pc as int])
        }
    }
}

/// The machine takes in what a primitive returned: a value is pushed on the
/// frame of the running activation, an error fails the run. Fails with
/// `IndexOutOfRange` where no activation is live or the array does not
/// reach the top of its frame.
pub open spec fn deliver(m: Machine, result: Result<Value, EngineError>) -> (Machine, Outcome) {
    match result {
        Err(e) => fail(m, e),
        Ok(v) => if m.frames.len() == 0 {
            fail(m, EngineError::IndexOutOfRange)
        } else {
            push(Machine { frames: m.frames.drop_last(), ..m }, m.frames.last(), v)
        },
    }
}

/// A run of at most `steps` steps, in which the primitives answer with
/// `replies`, in this order. The run ends early where the machine finishes
/// or fails, and where a primitive is to be called and no reply is left.
pub open spec fn run(m: Machine, steps: nat, replies: Seq<Reply>) -> (Machine, Outcome)
    decreases steps,
{
    if steps == 0 {
        (m, Outcome::Running)
    } else {
        let (after, outcome) = step(m);
        match outcome {
            Outcome::Running => run(after, (steps - 1) as nat, replies),
            Outcome::Calling(_, _) => if replies.len() == 0 {
                (after, outcome)
            } else {
                let reply = replies[0];
                let (landed, delivered) = deliver(
                    Machine { heap: reply.heap, next_id: reply.next_id, ..after },
                    reply.result,
                );
                match delivered {
                    Outcome::Running => run(landed, (steps - 1) as nat, replies.drop_first()),
                    _ => (landed, delivered),
                }
            },
            _ => (after, outcome),
        }
    }
}

/// The machine at the start of a run of `code` in `env`: the environment
/// joins the table, and the only activation is one that runs `code` from
/// its first instruction on an empty frame at the bottom of the stack.
pub open spec fn begin(m: Machine, code: CodeView, env: Map<Seq<char>, Value>) -> Machine {
    Machine {
        envs: m.envs.push(env),
        frames: seq![
            FrameView {
                code,
                ctx: Context { pc: 0, base: 0, index: 0 },
                env: m.envs.len() as usize,
            },
        ],
        ..m
    }
}

/// A run that ends without asking for a primitive is the same run whatever
/// the primitives would have answered.
pub proof fn lemma_run_without_calls(m: Machine, steps: nat, replies: Seq<Reply>)
    requires
        !(run(m, steps, Seq::empty()).1 is Calling),
    ensures
        run(m, steps, replies) == run(m, steps, Seq::empty()),
    decreases steps,
{
    if steps > 0 {
        let (after, outcome) = step(m);
        if outcome is Running {
            lemma_run_without_calls(after, (steps - 1) as nat, replies);
        }
    }
}

} // verus!
