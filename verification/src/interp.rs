//! The execution engine.

use vstd::prelude::*;
use crate::code::{Block, CompiledCode, Opcode};
use crate::env::Env;
use crate::heap::{Heap, ObjView, RefView, ValueObj};
use crate::machine;
use crate::machine::{FrameView, Machine, Outcome, Reply};
use crate::stack::{Context, Stack};
use crate::value::{EngineError, Value};

verus! {

/// A built-in function that the host supplies. It gets the arguments of the
/// call, the first argument first, and the heap, and returns one value or
/// fails. Nothing is assumed of what it returns or does to the heap.
pub trait Primitive {
    fn call(&self, heap: &mut Heap, args: Vec<Value>) -> Result<Value, EngineError>;
}

/// A registered primitive.
pub struct Prim {
    pub name: String,
    pub f: Box<dyn Primitive>,
}

/// One activation: the code it runs, its cursor, and the index of its
/// environment.
#[derive(Debug)]
pub struct Frame {
    pub code: CompiledCode,
    pub ctx: Context,
    pub env: usize,
}

impl View for Frame {
    type V = FrameView;

    open spec fn view(&self) -> FrameView {
        FrameView { code: self.code@, ctx: self.ctx, env: self.env }
    }
}

/// How a step, or a run of steps, of the engine ended.
#[derive(Debug, PartialEq, Eq)]
pub enum Status {
    /// An activation is live and can run on.
    Running,
    /// The outermost activation returned this value.
    Finished(Value),
    /// An instruction failed; every activation has ended.
    Failed(EngineError),
    /// The primitive of this name is to be called with these arguments.
    Calling(String, Vec<Value>),
}

impl View for Status {
    type V = Outcome;

    open spec fn view(&self) -> Outcome {
        match self {
            Status::Running => Outcome::Running,
            Status::Finished(v) => Outcome::Finished(*v),
            Status::Failed(e) => Outcome::Failed(*e),
            Status::Calling(name, args) => Outcome::Calling(name@, args@),
        }
    }
}

/// The models of a list of activations.
pub open spec fn frame_views(frames: Seq<Frame>) -> Seq<FrameView> {
    Seq::new(frames.len(), |i: int| frames[i]@)
}

/// The models of a list of environments.
pub open spec fn env_views(envs: Seq<Env>) -> Seq<Map<Seq<char>, Value>> {
    Seq::new(envs.len(), |i: int| envs[i]@)
}

/// The primitive at position `i` of `prims` is registered as `name`.
pub open spec fn named(prims: Seq<Prim>, i: int, name: Seq<char>) -> bool {
    0 <= i < prims.len() && prims[i].name@ == name
}

/// The primitive at position `i` of `prims` is the one that a call of
/// `name` reaches: the first that is registered under that name.
pub open spec fn reaches(prims: Seq<Prim>, i: int, name: Seq<char>) -> bool {
    named(prims, i, name) && forall|j: int| 0 <= j < i ==> !named(prims, j, name)
}

/// The names under which primitives are registered.
pub open spec fn prim_names(prims: Seq<Prim>) -> Set<Seq<char>> {
    Set::new(|name: Seq<char>| exists|i: int| named(prims, i, name))
}

proof fn lemma_names_update(prims: Seq<Prim>, i: int, p: Prim)
    requires
        named(prims, i, p.name@),
    ensures
        prim_names(prims.update(i, p)) == prim_names(prims).insert(p.name@),
{
    let after = prims.update(i, p);
    assert forall|n: Seq<char>|
        prim_names(after).contains(n) == prim_names(prims).insert(p.name@).contains(n) by {
        if prim_names(after).contains(n) {
            let j = choose|j: int| named(after, j, n);
            if j != i {
                assert(named(prims, j, n));
            }
        }
        if prim_names(prims).contains(n) {
            let j = choose|j: int| named(prims, j, n);
            assert(named(after, j, n));
        }
        if n == p.name@ {
            assert(named(after, i, n));
        }
    }
    assert(prim_names(after) =~= prim_names(prims).insert(p.name@));
}

proof fn lemma_names_push(prims: Seq<Prim>, p: Prim)
    ensures
        prim_names(prims.push(p)) == prim_names(prims).insert(p.name@),
{
    let after = prims.push(p);
    assert forall|n: Seq<char>|
        prim_names(after).contains(n) == prim_names(prims).insert(p.name@).contains(n) by {
        if prim_names(after).contains(n) {
            let j = choose|j: int| named(after, j, n);
            if j < prims.len() {
                assert(named(prims, j, n));
            }
        }
        if prim_names(prims).contains(n) {
            let j = choose|j: int| named(prims, j, n);
            assert(named(after, j, n));
        }
        if n == p.name@ {
            assert(named(after, prims.len() as int, n));
        }
    }
    assert(prim_names(after) =~= prim_names(prims).insert(p.name@));
}

/// An interpreter: a heap, an operand stack, the environments and
/// activations of the running code, and the registered primitives.
pub struct Interp {
    pub heap: Heap,
    pub stack: Stack,
    pub envs: Vec<Env>,
    pub frames: Vec<Frame>,
    pub prims: Vec<Prim>,
}

impl View for Interp {
    type V = Machine;

    open spec fn view(&self) -> Machine {
        Machine {
            heap: self.heap@,
            next_id: self.heap.spec_next_id(),
            stack: self.stack@,
            envs: env_views(self.envs@),
            frames: frame_views(self.frames@),
            prims: prim_names(self.prims@),
        }
    }
}

impl Interp {
    /// An interpreter with an empty heap and stack, no activation and no
    /// primitive.
    pub fn new() -> (r: Interp)
        ensures
            r@.heap == Map::<usize, RefView>::empty(),
            r@.next_id == 0,
            r@.stack == Seq::<Value>::empty(),
            r@.envs == Seq::<Map<Seq<char>, Value>>::empty(),
            r@.frames == Seq::<FrameView>::empty(),
            r@.prims == Set::<Seq<char>>::empty(),
            r.heap.wf(),
    {
        let r = Interp {
            heap: Heap::new(),
            stack: Stack::new(),
            envs: Vec::new(),
            frames: Vec::new(),
            prims: Vec::new(),
        };
        assert(r@.envs =~= Seq::<Map<Seq<char>, Value>>::empty());
        assert(r@.frames =~= Seq::<FrameView>::empty());
        assert(r@.prims =~= Set::<Seq<char>>::empty());
        r
    }

    /// An interpreter is always in a well-formed state.
    pub proof fn lemma_wf(&self)
        ensures
            self@.wf(),
    {
        self.heap.lemma_finite();
        self.stack.lemma_len();
        assert(self.envs@.len() == self.envs.len());
        assert forall|i: int| 0 <= i < self@.frames.len() implies (#[trigger] self@.frames[i]).code.ops.len()
            <= usize::MAX by {
            assert(self.frames@[i].code.ops@.len() == self.frames@[i].code.ops.len());
        }
    }

    /// The position of the primitive that a call of `name` reaches.
    fn find_prim(&self, name: &String) -> (r: Option<usize>)
        ensures
            match r {
                Some(i) => reaches(self.prims@, i as int, name@),
                None => !self@.prims.contains(name@),
            },
            r is Some ==> self@.prims.contains(name@),
    {
        let mut i: usize = 0;
        while i < self.prims.len()
            invariant
                i <= self.prims.len(),
                forall|j: int| 0 <= j < i ==> !named(self.prims@, j, name@),
            decreases self.prims.len() - i,
        {
            if self.prims[i].name == *name {
                assert(named(self.prims@, i as int, name@));
                return Some(i);
            }
            i += 1;
        }
        None
    }

    /// Registers `prim` under its name, in place of any primitive
    /// registered under that name before: a call of that name reaches
    /// `prim` from now on, and a call of another name reaches what it
    /// reached before.
    pub fn register(&mut self, prim: Prim)
        ensures
            final(self)@ == (Machine { prims: old(self)@.prims.insert(prim.name@), ..old(self)@ }),
            exists|i: int| #[trigger]
                reaches(final(self).prims@, i, prim.name@) && final(self).prims@[i] == prim,
            forall|i: int, other: Seq<char>|
                other != prim.name@ && #[trigger] reaches(old(self).prims@, i, other) ==> reaches(
                    final(self).prims@,
                    i,
                    other,
                ) && final(self).prims@[i] == old(self).prims@[i],
    {
        let ghost before = self.prims@;
        let ghost name = prim.name@;
        let ghost at: int;
        match self.find_prim(&prim.name) {
            Some(i) => {
                proof {
                    at = i as int;
                    lemma_names_update(self.prims@, i as int, prim);
                }
                self.prims.set(i, prim);
            },
            None => {
                proof {
                    at = before.len() as int;
                    lemma_names_push(self.prims@, prim);
                }
                self.prims.push(prim);
            },
        }
        proof {
            assert forall|j: int| 0 <= j < at implies !named(self.prims@, j, name) by {
                if named(before, j, name) {
                    assert(prim_names(before).contains(name));
                }
            }
            assert(reaches(self.prims@, at, name) && self.prims@[at] == prim);
            assert forall|i: int, other: Seq<char>|
                other != name && #[trigger] reaches(before, i, other) implies reaches(
                    self.prims@,
                    i,
                    other,
                ) && self.prims@[i] == before[i] by {
                assert(named(before, i, other));
                assert forall|j: int| 0 <= j < i implies !named(self.prims@, j, other) by {
                    assert(!named(before, j, other));
                }
            }
        }
        assert(self@.prims =~= old(self)@.prims.insert(name));
        assert(self@.envs =~= old(self)@.envs);
        assert(self@.frames =~= old(self)@.frames);
    }

    /// Ends every activation with the failure `e`.
    fn fail(&mut self, e: EngineError) -> (r: Status)
        ensures
            (final(self)@, r@) == machine::fail(old(self)@, e),
    {
        self.frames.clear();
        assert(self@.frames =~= Seq::<FrameView>::empty());
        Status::Failed(e)
    }

    /// Lets `frame` run on above the live activations.
    fn resume(&mut self, frame: Frame) -> (r: Status)
        ensures
            (final(self)@, r@) == machine::resume(old(self)@, frame@),
    {
        self.frames.push(frame);
        assert(self@.frames =~= old(self)@.frames.push(frame@));
        Status::Running
    }

    /// Pushes `v` on the frame of `frame`, which then runs on.
    fn push(&mut self, frame: Frame, v: Value) -> (r: Status)
        ensures
            (final(self)@, r@) == machine::push(old(self)@, frame@, v),
    {
        let mut frame = frame;
        match self.stack.load(&mut frame.ctx, v) {
            Ok(()) => self.resume(frame),
            Err(e) => self.fail(e),
        }
    }

    /// `LoadLit`.
    fn op_load_lit(&mut self, frame: Frame, i: u8) -> (r: Status)
        requires
            frame.ctx.pc < frame.code.ops.len(),
        ensures
            (final(self)@, r@) == machine::load_lit(old(self)@, frame@, i),
    {
        let mut frame = frame;
        if (i as usize) < frame.code.lits.len() {
            let v = Value::Ptr(frame.code.lits[i as usize]);
            frame.ctx.pc = frame.ctx.pc + 1;
            self.push(frame, v)
        } else {
            self.fail(EngineError::IndexOutOfRange)
        }
    }

    /// `LoadTemp`.
    fn op_load_temp(&mut self, frame: Frame, name: &String) -> (r: Status)
        requires
            frame.ctx.pc < frame.code.ops.len(),
        ensures
            (final(self)@, r@) == machine::load_temp(old(self)@, frame@, name@),
    {
        let mut frame = frame;
        if frame.env >= self.envs.len() || !self.stack.fits(&frame.ctx) {
            return self.fail(EngineError::IndexOutOfRange);
        }
        match self.envs[frame.env].get(name) {
            None => self.fail(EngineError::UnboundVariable),
            Some(v) => {
                if let Value::Ptr(id) = v {
                    match self.heap.refcount(id) {
                        None => {
                            return self.fail(EngineError::UnknownHeapId);
                        },
                        Some(count) => {
                            if count == usize::MAX {
                                return self.fail(EngineError::LimitExceeded);
                            }
                            self.heap.retain_id(id);
                        },
                    }
                }
                frame.ctx.pc = frame.ctx.pc + 1;
                self.push(frame, v)
            },
        }
    }

    /// `StorePop`.
    fn op_store_pop(&mut self, frame: Frame, name: &String) -> (r: Status)
        requires
            frame.ctx.pc < frame.code.ops.len(),
        ensures
            (final(self)@, r@) == machine::store_pop(old(self)@, frame@, name@),
    {
        let mut frame = frame;
        match self.stack.pop(&mut frame.ctx) {
            Err(e) => self.fail(e),
            Ok(v) => {
                if frame.env >= self.envs.len() {
                    return self.fail(EngineError::IndexOutOfRange);
                }
                let ghost envs = self.envs@;
                let previous = self.envs[frame.env].bind(name.clone(), v);
                assert(env_views(self.envs@) =~= env_views(envs).update(
                    frame.env as int,
                    envs[frame.env as int]@.insert(name@, v),
                ));
                if let Some(old_value) = previous {
                    self.heap.release(&old_value);
                }
                frame.ctx.pc = frame.ctx.pc + 1;
                self.resume(frame)
            },
        }
    }

    /// `Pop`.
    fn op_discard(&mut self, frame: Frame) -> (r: Status)
        requires
            frame.ctx.pc < frame.code.ops.len(),
        ensures
            (final(self)@, r@) == machine::discard(old(self)@, frame@),
    {
        let mut frame = frame;
        match self.stack.pop(&mut frame.ctx) {
            Err(e) => self.fail(e),
            Ok(v) => {
                self.heap.release(&v);
                frame.ctx.pc = frame.ctx.pc + 1;
                self.resume(frame)
            },
        }
    }

    /// `BranchTrue` and `BranchFalse`.
    fn op_branch(&mut self, frame: Frame, wanted: bool, target: u16) -> (r: Status)
        requires
            frame.ctx.pc < frame.code.ops.len(),
        ensures
            (final(self)@, r@) == machine::branch(old(self)@, frame@, wanted, target),
    {
        let mut frame = frame;
        let top = match self.stack.top(&frame.ctx) {
            Err(e) => {
                return self.fail(e);
            },
            Ok(v) => v.clone(),
        };
        match top {
            Value::Bool(b) => {
                if b != wanted {
                    frame.ctx.pc = frame.ctx.pc + 1;
                    self.resume(frame)
                } else {
                    let t = target as usize;
                    if t < frame.code.ops.len() && is_loop_head(&frame.code.ops[t]) {
                        frame.ctx.pc = t;
                        self.resume(frame)
                    } else {
                        self.fail(EngineError::MalformedJumpTarget)
                    }
                }
            },
            _ => self.fail(EngineError::TypeMismatch),
        }
    }

    /// `Jump`.
    fn op_jump(&mut self, frame: Frame, offset: i16) -> (r: Status)
        requires
            frame.ctx.pc < frame.code.ops.len(),
        ensures
            (final(self)@, r@) == machine::jump(old(self)@, frame@, offset),
    {
        let mut frame = frame;
        let len = frame.code.ops.len();
        let next = frame.ctx.pc + 1;
        if offset >= 0 {
            let forward = offset as usize;
            if forward <= len - next {
                frame.ctx.pc = next + forward;
                self.resume(frame)
            } else {
                self.fail(EngineError::MalformedJumpTarget)
            }
        } else {
            let back = (-(offset as i32)) as usize;
            if back <= next {
                frame.ctx.pc = next - back;
                self.resume(frame)
            } else {
                self.fail(EngineError::MalformedJumpTarget)
            }
        }
    }

    /// `Not`.
    fn op_negate(&mut self, frame: Frame) -> (r: Status)
        requires
            frame.ctx.pc < frame.code.ops.len(),
        ensures
            (final(self)@, r@) == machine::negate(old(self)@, frame@),
    {
        let mut frame = frame;
        match self.stack.pop(&mut frame.ctx) {
            Err(e) => self.fail(e),
            Ok(Value::Bool(b)) => {
                frame.ctx.pc = frame.ctx.pc + 1;
                self.push(frame, Value::Bool(!b))
            },
            Ok(_) => self.fail(EngineError::TypeMismatch),
        }
    }

    /// `Eq`, `Neq`, `Lt`, `Le`, `Gt` and `Ge`.
    fn op_compare(&mut self, frame: Frame, op: &Opcode) -> (r: Status)
        requires
            frame.ctx.pc < frame.code.ops.len(),
        ensures
            (final(self)@, r@) == machine::compare(old(self)@, frame@, *op),
    {
        let mut frame = frame;
        let b = match self.stack.pop(&mut frame.ctx) {
            Err(e) => {
                return self.fail(e);
            },
            Ok(v) => v,
        };
        let a = match self.stack.pop(&mut frame.ctx) {
            Err(e) => {
                return self.fail(e);
            },
            Ok(v) => v,
        };
        match compare_values(op, &a, &b) {
            Some(r) => {
                frame.ctx.pc = frame.ctx.pc + 1;
                self.push(frame, Value::Bool(r))
            },
            None => self.fail(EngineError::TypeMismatch),
        }
    }

    /// `MakeBlock`.
    fn op_make_block(&mut self, frame: Frame) -> (r: Status)
        requires
            frame.ctx.pc < frame.code.ops.len(),
        ensures
            (final(self)@, r@) == machine::make_block(old(self)@, frame@),
    {
        let mut frame = frame;
        let k = count_makers(&frame.code.ops, frame.ctx.pc);
        if !self.stack.fits(&frame.ctx) || k >= frame.code.lits.len() {
            return self.fail(EngineError::IndexOutOfRange);
        }
        let id = frame.code.lits[k];
        let code = match self.heap.get(id) {
            None => {
                return self.fail(EngineError::UnknownHeapId);
            },
            Some(ValueObj::Block(b)) => b.code.clone(),
            Some(_) => {
                return self.fail(EngineError::TypeMismatch);
            },
        };
        if self.heap.next_id() == usize::MAX {
            return self.fail(EngineError::LimitExceeded);
        }
        let closure = Block { code, env: Some(frame.env) };
        let ptr = self.heap.new_value(ValueObj::Block(closure));
        frame.ctx.pc = frame.ctx.pc + 1;
        self.push(frame, ptr)
    }

    /// Ends the activation of `frame` with `result`; the lowest `dropped`
    /// values of its frame give up their references.
    fn leave(&mut self, frame: Frame, result: Value, dropped: usize) -> (r: Status)
        requires
            dropped <= frame.ctx.index,
        ensures
            (final(self)@, r@) == machine::leave(old(self)@, frame@, result, dropped as int),
    {
        if !self.stack.fits(&frame.ctx) {
            return self.fail(EngineError::IndexOutOfRange);
        }
        proof {
            self.stack.lemma_len();
        }
        let slots = self.stack.copy_range(frame.ctx.base, frame.ctx.base + dropped);
        match self.frames.pop() {
            None => {
                self.heap.release_values(slots);
                assert(self@.frames =~= old(self)@.frames);
                Status::Finished(result)
            },
            Some(caller) => {
                let mut caller = caller;
                assert(caller@ == old(self)@.frames.last());
                match self.stack.load(&mut caller.ctx, result) {
                    Err(e) => self.fail(e),
                    Ok(()) => {
                        self.heap.release_values(slots);
                        self.frames.push(caller);
                        assert(self@.frames =~= old(self)@.frames.drop_last().push(
                            old(self)@.frames.last().with_ctx(
                                old(self)@.frames.last().ctx.grown(),
                            ),
                        ));
                        Status::Running
                    },
                }
            },
        }
    }

    /// `Return`.
    fn op_return(&mut self, frame: Frame) -> (r: Status)
        ensures
            (final(self)@, r@) == machine::ret(old(self)@, frame@),
    {
        let result = match self.stack.top(&frame.ctx) {
            Err(e) => {
                return self.fail(e);
            },
            Ok(v) => v.clone(),
        };
        let dropped = frame.ctx.index - 1;
        self.leave(frame, result, dropped)
    }

    /// `Apply`.
    fn op_apply(&mut self, frame: Frame, n: u8) -> (r: Status)
        requires
            frame.ctx.pc < frame.code.ops.len(),
        ensures
            (final(self)@, r@) == machine::apply(old(self)@, frame@, n),
    {
        let mut frame = frame;
        let callee = match self.stack.pop(&mut frame.ctx) {
            Err(e) => {
                return self.fail(e);
            },
            Ok(v) => v,
        };
        let count = n as usize;
        if frame.ctx.index < count {
            return self.fail(EngineError::StackUnderflow);
        }
        proof {
            self.stack.lemma_len();
        }
        frame.ctx.index = frame.ctx.index - count;
        frame.ctx.pc = frame.ctx.pc + 1;
        let low = frame.ctx.base + frame.ctx.index;
        let args = self.stack.copy_range(low, low + count);
        match callee {
            Value::Prim(name) => {
                match self.find_prim(&name) {
                    Some(_) => {
                        self.frames.push(frame);
                        assert(self@.frames =~= old(self)@.frames.push(frame@));
                        Status::Calling(name, args)
                    },
                    None => self.fail(EngineError::UnknownPrimitive),
                }
            },
            Value::Ptr(id) => {
                let block = match self.heap.get(id) {
                    None => {
                        return self.fail(EngineError::UnknownHeapId);
                    },
                    Some(ValueObj::Block(b)) => b.clone(),
                    Some(_) => {
                        return self.fail(EngineError::TypeMismatch);
                    },
                };
                if block.code.params.len() != count {
                    return self.fail(EngineError::TypeMismatch);
                }
                let mut env = match block.env {
                    None => Env::new(),
                    Some(e) => {
                        if e < self.envs.len() {
                            self.envs[e].clone()
                        } else {
                            return self.fail(EngineError::IndexOutOfRange);
                        }
                    },
                };
                bind_all(&mut env, &block.code.params, &args);
                let slot = self.envs.len();
                let ghost envs = self.envs@;
                self.envs.push(env);
                assert(env_views(self.envs@) =~= env_views(envs).push(env@));
                self.frames.push(frame);
                assert(self@.frames =~= old(self)@.frames.push(frame@));
                let callee_frame = Frame {
                    code: block.code,
                    ctx: Context { pc: 0, base: low, index: 0 },
                    env: slot,
                };
                self.resume(callee_frame)
            },
            _ => self.fail(EngineError::TypeMismatch),
        }
    }

    /// Executes the instruction `op` of the activation `frame`.
    fn execute(&mut self, frame: Frame, op: Opcode) -> (r: Status)
        requires
            frame.ctx.pc < frame.code.ops.len(),
        ensures
            (final(self)@, r@) == machine::execute(old(self)@, frame@, op),
    {
        let mut frame = frame;
        match op {
            Opcode::Nop | Opcode::LoopHead => {
                frame.ctx.pc = frame.ctx.pc + 1;
                self.resume(frame)
            },
            Opcode::LoadUnit => {
                frame.ctx.pc = frame.ctx.pc + 1;
                self.push(frame, Value::Unit)
            },
            Opcode::LoadTrue => {
                frame.ctx.pc = frame.ctx.pc + 1;
                self.push(frame, Value::Bool(true))
            },
            Opcode::LoadFalse => {
                frame.ctx.pc = frame.ctx.pc + 1;
                self.push(frame, Value::Bool(false))
            },
            Opcode::LoadInt(n) => {
                frame.ctx.pc = frame.ctx.pc + 1;
                self.push(frame, Value::Int(n))
            },
            Opcode::LoadPrim(name) => {
                frame.ctx.pc = frame.ctx.pc + 1;
                self.push(frame, Value::Prim(name))
            },
            Opcode::LoadLit(i) => self.op_load_lit(frame, i),
            Opcode::LoadTemp(name) => self.op_load_temp(frame, &name),
            Opcode::StorePop(name) => self.op_store_pop(frame, &name),
            Opcode::Pop => self.op_discard(frame),
            Opcode::Return => self.op_return(frame),
            Opcode::Jump(offset) => self.op_jump(frame, offset),
            Opcode::BranchTrue(target) => self.op_branch(frame, true, target),
            Opcode::BranchFalse(target) => self.op_branch(frame, false, target),
            Opcode::Apply(n) => self.op_apply(frame, n),
            Opcode::MakeBlock => self.op_make_block(frame),
            Opcode::Not => self.op_negate(frame),
            Opcode::Eq | Opcode::Neq | Opcode::Lt | Opcode::Le | Opcode::Gt | Opcode::Ge => {
                self.op_compare(frame, &op)
            },
        }
    }

    /// Takes one step: the running activation executes the instruction
    /// under its cursor, or ends with `Unit` where the cursor has left the
    /// code. An interpreter without an activation is finished, with `Unit`.
    /// A primitive that is to be called is not called: `Calling` names it.
    pub fn step(&mut self) -> (r: Status)
        ensures
            (final(self)@, r@) == machine::step(old(self)@),
    {
        match self.frames.pop() {
            None => {
                assert(self@.frames =~= old(self)@.frames);
                Status::Finished(Value::Unit)
            },
            Some(frame) => {
                assert(self@.frames =~= old(self)@.frames.drop_last());
                assert(frame@ == old(self)@.frames.last());
                if frame.ctx.pc >= frame.code.ops.len() {
                    let dropped = frame.ctx.index;
                    self.leave(frame, Value::Unit, dropped)
                } else {
                    let op = frame.code.ops[frame.ctx.pc].clone();
                    self.execute(frame, op)
                }
            },
        }
    }

    /// Takes in what a primitive returned: a value is pushed on the frame
    /// of the running activation, an error fails the run.
    pub fn deliver(&mut self, result: Result<Value, EngineError>) -> (r: Status)
        ensures
            (final(self)@, r@) == machine::deliver(old(self)@, result),
    {
        match result {
            Err(e) => self.fail(e),
            Ok(v) => {
                match self.frames.pop() {
                    None => {
                        assert(self@.frames =~= old(self)@.frames);
                        self.fail(EngineError::IndexOutOfRange)
                    },
                    Some(frame) => {
                        assert(self@.frames =~= old(self)@.frames.drop_last());
                        assert(frame@ == old(self)@.frames.last());
                        self.push(frame, v)
                    },
                }
            },
        }
    }

    /// Abandons every live activation and begins a run of `code` in `env`.
    pub fn start(&mut self, code: CompiledCode, env: Env)
        ensures
            final(self)@ == machine::begin(old(self)@, code@, env@),
    {
        let slot = self.envs.len();
        let ghost envs = self.envs@;
        self.envs.push(env);
        assert(env_views(self.envs@) =~= env_views(envs).push(env@));
        self.frames.clear();
        let frame = Frame { code, ctx: Context::new(), env: slot };
        self.frames.push(frame);
        assert(self@.frames =~= seq![frame@]);
    }

    /// Runs the live activations for at most `steps` steps, calling each
    /// primitive that the code applies. Returns `Finished` or `Failed`
    /// where the run ended, and `Running` where the steps ran out first;
    /// it can then be called again.
    ///
    /// The interpreter ends in the state, and with the outcome, that the
    /// machine's definition gives for the answers that the primitives
    /// gave. Where that definition reaches no primitive, this is the state
    /// and the outcome that it gives, whatever is registered.
    pub fn eval(&mut self, steps: u64) -> (r: Status)
        ensures
            !(r is Calling),
            exists|replies: Seq<Reply>| #[trigger]
                machine::run(old(self)@, steps as nat, replies) == (final(self)@, r@),
            !(machine::run(old(self)@, steps as nat, Seq::empty()).1 is Calling) ==> machine::run(
                old(self)@,
                steps as nat,
                Seq::empty(),
            ) == (final(self)@, r@),
    {
        let ghost origin = self@;
        let ghost mut heard: Seq<Reply> = Seq::empty();
        let mut left = steps;
        let mut outcome = Status::Running;
        assert forall|rest: Seq<Reply>| #[trigger]
            machine::run(self@, left as nat, rest) == machine::run(
                origin,
                steps as nat,
                heard + rest,
            ) by {
            assert(heard + rest =~= rest);
        }
        while left > 0
            invariant_except_break
                outcome is Running,
                forall|rest: Seq<Reply>| #[trigger]
                    machine::run(self@, left as nat, rest) == machine::run(
                        origin,
                        steps as nat,
                        heard + rest,
                    ),
                machine::run(self@, left as nat, Seq::empty()) == machine::run(
                    origin,
                    steps as nat,
                    heard,
                ),
            ensures
                !(outcome is Calling),
                machine::run(origin, steps as nat, heard) == (self@, outcome@),
            decreases left,
        {
            let ghost before = self@;
            let ghost budget = left as nat;
            let status = self.step();
            let ghost after = self@;
            match status {
                Status::Running => {
                    left = left - 1;
                    assert forall|rest: Seq<Reply>| #[trigger]
                        machine::run(self@, left as nat, rest) == machine::run(
                            origin,
                            steps as nat,
                            heard + rest,
                        ) by {
                        assert(machine::run(before, budget, rest) == machine::run(
                            after,
                            (budget - 1) as nat,
                            rest,
                        ));
                    }
                    assert(heard + Seq::<Reply>::empty() =~= heard);
                },
                Status::Calling(name, args) => {
                    let result = match self.find_prim(&name) {
                        Some(i) => self.prims[i].f.call(&mut self.heap, args),
                        None => Err(EngineError::UnknownPrimitive),
                    };
                    let ghost reply = Reply {
                        heap: self.heap@,
                        next_id: self.heap.spec_next_id(),
                        result,
                    };
                    assert(self@ == (Machine { heap: reply.heap, next_id: reply.next_id, ..after }));
                    let delivered = self.deliver(result);
                    let ghost landed = self@;
                    assert forall|rest: Seq<Reply>|
                        machine::run(before, budget, seq![reply] + rest) == (if delivered is Running {
                            machine::run(landed, (budget - 1) as nat, rest)
                        } else {
                            (landed, delivered@)
                        }) by {
                        assert((seq![reply] + rest).drop_first() =~= rest);
                        assert((seq![reply] + rest)[0] == reply);
                    }
                    assert forall|rest: Seq<Reply>|
                        machine::run(before, budget, seq![reply] + rest) == machine::run(
                            origin,
                            steps as nat,
                            heard.push(reply) + rest,
                        ) by {
                        assert(heard + (seq![reply] + rest) =~= heard.push(reply) + rest);
                    }
                    proof {
                        heard = heard.push(reply);
                    }
                    match delivered {
                        Status::Running => {
                            left = left - 1;
                            assert(heard + Seq::<Reply>::empty() =~= heard);
                        },
                        ended => {
                            assert(heard + Seq::<Reply>::empty() =~= heard);
                            outcome = ended;
                            break;
                        },
                    }
                },
                ended => {
                    assert(heard + Seq::<Reply>::empty() =~= heard);
                    assert(machine::run(before, budget, Seq::<Reply>::empty()) == (self@, ended@));
                    outcome = ended;
                    break;
                },
            }
        }
        proof {
            assert(heard + Seq::<Reply>::empty() =~= heard);
            assert(machine::run(origin, steps as nat, heard) == (self@, outcome@));
            if !(machine::run(origin, steps as nat, Seq::empty()).1 is Calling) {
                machine::lemma_run_without_calls(origin, steps as nat, heard);
            }
        }
        outcome
    }

    /// Begins a run of `code` in `env` and lets it run for at most `steps`
    /// steps, as `start` and `eval` do.
    pub fn run(&mut self, code: CompiledCode, env: Env, steps: u64) -> (r: Status)
        ensures
            !(r is Calling),
            exists|replies: Seq<Reply>| #[trigger]
                machine::run(machine::begin(old(self)@, code@, env@), steps as nat, replies) == (
                    final(self)@,
                    r@,
                ),
            !(machine::run(machine::begin(old(self)@, code@, env@), steps as nat, Seq::empty()).1
                is Calling) ==> machine::run(
                machine::begin(old(self)@, code@, env@),
                steps as nat,
                Seq::empty(),
            ) == (final(self)@, r@),
    {
        self.start(code, env);
        self.eval(steps)
    }
}

/// Binds each of `params` to the argument at its position, the first
/// parameter first.
fn bind_all(env: &mut Env, params: &Vec<String>, args: &Vec<Value>)
    requires
        params@.len() == args@.len(),
    ensures
        final(env)@ == machine::bind_args(old(env)@, params@, args@),
{
    let mut i: usize = 0;
    assert(params@.skip(0) =~= params@);
    assert(args@.skip(0) =~= args@);
    while i < params.len()
        invariant
            i <= params.len(),
            params@.len() == args@.len(),
            machine::bind_args(env@, params@.skip(i as int), args@.skip(i as int))
                == machine::bind_args(old(env)@, params@, args@),
        decreases params.len() - i,
    {
        let ghost before = env@;
        env.bind(params[i].clone(), args[i].clone());
        assert(params@.skip(i as int).drop_first() =~= params@.skip(i + 1));
        assert(args@.skip(i as int).drop_first() =~= args@.skip(i + 1));
        i += 1;
    }
}

/// The number of `MakeBlock` instructions among the first `n` of `ops`.
fn count_makers(ops: &Vec<Opcode>, n: usize) -> (r: usize)
    requires
        n <= ops@.len(),
    ensures
        r == machine::makers_before(ops@, n as nat),
        r <= n,
{
    let mut count: usize = 0;
    let mut i: usize = 0;
    while i < n
        invariant
            i <= n <= ops@.len(),
            count == machine::makers_before(ops@, i as nat),
            count <= i,
        decreases n - i,
    {
        if let Opcode::MakeBlock = &ops[i] {
            count = count + 1;
        }
        i += 1;
    }
    count
}

/// Whether `op` is a loop header.
fn is_loop_head(op: &Opcode) -> (r: bool)
    ensures
        r == (*op == Opcode::LoopHead),
{
    match op {
        Opcode::LoopHead => true,
        _ => false,
    }
}

/// What the comparison instruction `op` says of `a` and `b`, where `a` was
/// pushed first: the booleans' or integers' equality for `Eq` and `Neq`,
/// the integers' order for `Lt`, `Le`, `Gt` and `Ge`, and nothing for other
/// operands.
pub fn compare_values(op: &Opcode, a: &Value, b: &Value) -> (r: Option<bool>)
    ensures
        r == machine::compared(*op, *a, *b),
{
    match (op, a, b) {
        (Opcode::Eq, Value::Bool(x), Value::Bool(y)) => Some(*x == *y),
        (Opcode::Eq, Value::Int(x), Value::Int(y)) => Some(*x == *y),
        (Opcode::Neq, Value::Bool(x), Value::Bool(y)) => Some(*x != *y),
        (Opcode::Neq, Value::Int(x), Value::Int(y)) => Some(*x != *y),
        (Opcode::Lt, Value::Int(x), Value::Int(y)) => Some(*x < *y),
        (Opcode::Le, Value::Int(x), Value::Int(y)) => Some(*x <= *y),
        (Opcode::Gt, Value::Int(x), Value::Int(y)) => Some(*x > *y),
        (Opcode::Ge, Value::Int(x), Value::Int(y)) => Some(*x >= *y),
        _ => None,
    }
}

} // verus!
