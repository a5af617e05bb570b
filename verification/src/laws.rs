//! Laws of the machine, proved from its definition. The engine is proved to
//! follow that definition, so each law holds of the engine too.

use vstd::prelude::*;
use crate::code::{CodeView, Opcode};
use crate::heap::{children, heap_wf, lemma_release_scalar, release_all, released, retained, RefView};
use crate::machine::{begin, compared, deliver, fail, run, step, Machine, Outcome, Reply};
use crate::stack::peek;
use crate::value::{EngineError, Id, Value};

verus! {

/// Counting a reference to an object and giving it up again leaves the
/// heap as it was.
pub proof fn lemma_retain_then_release(h: Map<Id, RefView>, id: Id)
    requires
        h.dom().finite(),
        h.contains_key(id),
        1 <= h[id].count < usize::MAX,
    ensures
        released(retained(h, id), Value::Ptr(id)) == h,
{
    let kept = retained(h, id);
    let work = seq![Value::Ptr(id)];
    assert(work.drop_last() =~= Seq::<Value>::empty());
    let lowered = kept.insert(id, RefView { count: (kept[id].count - 1) as usize, obj: kept[id].obj });
    assert(lowered =~= h);
    assert(release_all(kept, work) == release_all(lowered, Seq::<Value>::empty()));
}

/// The heap after `n` more references to `id` were counted.
pub open spec fn retained_times(h: Map<Id, RefView>, id: Id, n: nat) -> Map<Id, RefView>
    decreases n,
{
    if n == 0 {
        h
    } else {
        retained(retained_times(h, id, (n - 1) as nat), id)
    }
}

/// The heap after `v` gave up `n` references.
pub open spec fn released_times(h: Map<Id, RefView>, v: Value, n: nat) -> Map<Id, RefView>
    decreases n,
{
    if n == 0 {
        h
    } else {
        released_times(released(h, v), v, (n - 1) as nat)
    }
}

/// Counting `n` references leaves every other object alone and raises the
/// count of `id` by `n`.
pub proof fn lemma_retained_times(h: Map<Id, RefView>, id: Id, n: nat)
    requires
        h.contains_key(id),
        h[id].count + n <= usize::MAX,
    ensures
        retained_times(h, id, n) == h.insert(
            id,
            RefView { count: (h[id].count + n) as usize, obj: h[id].obj },
        ),
    decreases n,
{
    if n == 0 {
        assert(h.insert(id, RefView { count: h[id].count, obj: h[id].obj }) =~= h);
    } else {
        lemma_retained_times(h, id, (n - 1) as nat);
        let mid = retained_times(h, id, (n - 1) as nat);
        assert(retained(mid, id) =~= h.insert(
            id,
            RefView { count: (h[id].count + n) as usize, obj: h[id].obj },
        ));
    }
}

/// Refcount symmetry: any number of references counted to an object, each
/// matched by one that is given up, leaves the heap as it was.
pub proof fn lemma_retains_match_releases(h: Map<Id, RefView>, id: Id, n: nat)
    requires
        h.dom().finite(),
        h.contains_key(id),
        1 <= h[id].count,
        h[id].count + n <= usize::MAX,
    ensures
        released_times(retained_times(h, id, n), Value::Ptr(id), n) == h,
    decreases n,
{
    if n > 0 {
        let inner = retained_times(h, id, (n - 1) as nat);
        lemma_retained_times(h, id, (n - 1) as nat);
        assert(inner.dom() =~= h.dom());
        lemma_retain_then_release(inner, id);
        lemma_retains_match_releases(h, id, (n - 1) as nat);
    }
}

/// Refcount symmetry of the instructions: where a name is bound to a
/// pointer, `LoadTemp` of the name followed by `StorePop` of the same name
/// leaves the heap and the environments as they were, and the frame as
/// deep as it was.
pub proof fn lemma_load_then_store(m: Machine, name: String, other: String)
    requires
        m.wf(),
        m.frames.len() > 0,
        name@ == other@,
        ({
            let f = m.frames.last();
            &&& f.ctx.top() < usize::MAX
            &&& f.ctx.pc + 1 < f.code.ops.len()
            &&& f.code.ops[f.ctx.pc as int] == Opcode::LoadTemp(name)
            &&& f.code.ops[f.ctx.pc + 1] == Opcode::StorePop(other)
            &&& f.ctx.top() <= m.stack.len()
            &&& f.env < m.envs.len()
            &&& m.envs[f.env as int].contains_key(name@)
            &&& m.envs[f.env as int][name@] matches Value::Ptr(id) ==> m.heap.contains_key(id) && 1
                <= m.heap[id].count < usize::MAX
        }),
    ensures
        ({
            let f = m.frames.last();
            let (after, outcome) = step(step(m).0);
            &&& step(m).1 == Outcome::Running
            &&& outcome == Outcome::Running
            &&& after.heap == m.heap
            &&& after.envs == m.envs
            &&& after.frames == m.frames.drop_last().push(
                f.with_ctx(f.ctx.at(f.ctx.pc + 2)),
            )
        }),
{
    let f = m.frames.last();
    let v = m.envs[f.env as int][name@];
    let (mid, _) = step(m);
    let loaded = f.advanced().with_ctx(f.advanced().ctx.grown());
    assert(m.frames.drop_last().push(loaded).drop_last() =~= m.frames.drop_last());
    assert(mid.frames.last() == loaded);
    assert(peek(mid.stack, loaded.ctx) == Ok::<Value, EngineError>(v));
    let (after, _) = step(mid);
    assert(after.envs =~= m.envs) by {
        assert(m.envs[f.env as int].insert(name@, v) =~= m.envs[f.env as int]);
    }
    match v {
        Value::Ptr(id) => {
            lemma_retain_then_release(m.heap, id);
        },
        _ => {
            lemma_release_scalar(m.heap, v);
        },
    }
    assert(loaded.shrunk().advanced() == f.with_ctx(f.ctx.at(f.ctx.pc + 2)));
}

/// Comparison correctness: on two integers the ordering instructions say
/// what the order of the integers says, and `Eq` and `Neq` say whether
/// they are the same; on two booleans `Eq` and `Neq` say whether they are
/// the same.
pub proof fn lemma_comparisons(a: i64, b: i64, p: bool, q: bool)
    ensures
        compared(Opcode::Lt, Value::Int(a), Value::Int(b)) == Some(a < b),
        compared(Opcode::Le, Value::Int(a), Value::Int(b)) == Some(a <= b),
        compared(Opcode::Gt, Value::Int(a), Value::Int(b)) == Some(a > b),
        compared(Opcode::Ge, Value::Int(a), Value::Int(b)) == Some(a >= b),
        compared(Opcode::Eq, Value::Int(a), Value::Int(b)) == Some(a == b),
        compared(Opcode::Neq, Value::Int(a), Value::Int(b)) == Some(a != b),
        compared(Opcode::Eq, Value::Bool(p), Value::Bool(q)) == Some(p == q),
        compared(Opcode::Neq, Value::Bool(p), Value::Bool(q)) == Some(p != q),
{
}

/// `op` is one of the six comparison instructions.
pub open spec fn is_comparison(op: Opcode) -> bool {
    op is Eq || op is Neq || op is Lt || op is Le || op is Gt || op is Ge
}

/// Comparison correctness of the instructions: a comparison that finds
/// two integers, or `Eq` or `Neq` that finds two booleans, on top of a
/// frame replaces them by the boolean that `compared` gives, and the
/// activation moves on.
pub proof fn lemma_comparison_step(m: Machine, a: Value, b: Value)
    requires
        m.frames.len() > 0,
        ({
            let f = m.frames.last();
            &&& f.ctx.pc < f.code.ops.len()
            &&& is_comparison(f.code.ops[f.ctx.pc as int])
            &&& f.ctx.index >= 2
            &&& f.ctx.top() <= m.stack.len()
            &&& m.stack[f.ctx.top() - 2] == a
            &&& m.stack[f.ctx.top() - 1] == b
            &&& compared(f.code.ops[f.ctx.pc as int], a, b) is Some
        }),
    ensures
        ({
            let f = m.frames.last();
            let answer = Value::Bool(compared(f.code.ops[f.ctx.pc as int], a, b)->0);
            step(m) == (
                Machine {
                    stack: m.stack.update(f.ctx.top() - 2, answer),
                    frames: m.frames.drop_last().push(f.shrunk().advanced()),
                    ..m
                },
                Outcome::Running,
            )
        }),
{
    let f = m.frames.last();
    let done = f.shrunk().shrunk().advanced();
    assert(done.with_ctx(done.ctx.grown()) == f.shrunk().advanced());
}

/// Type mismatch rejection: `Not` on a value that is no boolean, and a
/// comparison on two values of which it says nothing (`Eq` and `Neq` on
/// values that are not two booleans or two integers, the ordering
/// instructions on values that are not two integers), fail with
/// `TypeMismatch`, end every activation, and leave the heap, the stack and
/// the environments as they were.
pub proof fn lemma_type_mismatch(m: Machine)
    requires
        m.frames.len() > 0,
        ({
            let f = m.frames.last();
            let op = f.code.ops[f.ctx.pc as int];
            &&& f.ctx.pc < f.code.ops.len()
            &&& f.ctx.top() <= m.stack.len()
            &&& {
                ||| op is Not && f.ctx.index >= 1 && !(m.stack[f.ctx.top() - 1] is Bool)
                ||| is_comparison(op) && f.ctx.index >= 2 && compared(
                    op,
                    m.stack[f.ctx.top() - 2],
                    m.stack[f.ctx.top() - 1],
                ) is None
            }
        }),
    ensures
        step(m) == fail(m, EngineError::TypeMismatch),
{
}

/// A failure changes nothing but the activations: whatever instruction
/// fails, and whyever, the heap, the stack and the environments are as
/// they were before it, and no activation is left.
pub proof fn lemma_failure_changes_nothing(m: Machine)
    requires
        step(m).1 is Failed,
    ensures
        step(m).0 == (Machine { frames: Seq::empty(), ..m }),
{
}

/// Branch well-formedness at branch time: a conditional branch that finds
/// the boolean it waits for goes to its target where that is a loop
/// header, and fails with `MalformedJumpTarget` where it is not.
pub proof fn lemma_branch_taken(m: Machine)
    requires
        m.frames.len() > 0,
        ({
            let f = m.frames.last();
            &&& f.ctx.pc < f.code.ops.len()
            &&& f.ctx.index >= 1
            &&& f.ctx.top() <= m.stack.len()
            &&& match f.code.ops[f.ctx.pc as int] {
                Opcode::BranchTrue(_) => m.stack[f.ctx.top() - 1] == Value::Bool(true),
                Opcode::BranchFalse(_) => m.stack[f.ctx.top() - 1] == Value::Bool(false),
                _ => false,
            }
        }),
    ensures
        ({
            let f = m.frames.last();
            let target = match f.code.ops[f.ctx.pc as int] {
                Opcode::BranchTrue(t) => t,
                Opcode::BranchFalse(t) => t,
                _ => 0,
            };
            step(m) == (if f.code.is_loop_head(target as int) {
                (
                    Machine {
                        frames: m.frames.drop_last().push(f.with_ctx(f.ctx.at(target as int))),
                        ..m
                    },
                    Outcome::Running,
                )
            } else {
                fail(m, EngineError::MalformedJumpTarget)
            })
        }),
{
}

/// Branch well-formedness of valid code: in an activation whose code has
/// all its branches lead to loop headers, no conditional branch fails with
/// `MalformedJumpTarget`.
pub proof fn lemma_valid_branches(m: Machine)
    requires
        m.frames.len() > 0,
        ({
            let f = m.frames.last();
            &&& f.ctx.pc < f.code.ops.len()
            &&& f.code.branches_well_formed()
            &&& (f.code.ops[f.ctx.pc as int] is BranchTrue || f.code.ops[f.ctx.pc as int]
                is BranchFalse)
        }),
    ensures
        step(m).1 != Outcome::Failed(EngineError::MalformedJumpTarget),
{
}

/// A malformed branch fails at branch time, not earlier: an instruction
/// that is no jump never fails with `MalformedJumpTarget`, whatever the
/// rest of the code holds.
pub proof fn lemma_only_jumps_are_malformed(m: Machine)
    requires
        m.frames.len() > 0,
        ({
            let f = m.frames.last();
            f.ctx.pc < f.code.ops.len() ==> !(f.code.ops[f.ctx.pc as int] is BranchTrue
                || f.code.ops[f.ctx.pc as int] is BranchFalse || f.code.ops[f.ctx.pc as int]
                is Jump)
        }),
    ensures
        step(m).1 != Outcome::Failed(EngineError::MalformedJumpTarget),
{
}

/// The number of values by which an instruction that succeeds changes the
/// depth of its frame: what it pushes less what it takes. `Apply` takes the
/// callee and its arguments, and the result of the call is pushed in their
/// place.
pub open spec fn depth_change(op: Opcode) -> int {
    match op {
        Opcode::LoadTemp(_) => 1,
        Opcode::LoadLit(_) => 1,
        Opcode::LoadUnit => 1,
        Opcode::LoadTrue => 1,
        Opcode::LoadFalse => 1,
        Opcode::LoadInt(_) => 1,
        Opcode::LoadPrim(_) => 1,
        Opcode::MakeBlock => 1,
        Opcode::StorePop(_) => -1,
        Opcode::Pop => -1,
        Opcode::Eq => -1,
        Opcode::Neq => -1,
        Opcode::Lt => -1,
        Opcode::Le => -1,
        Opcode::Gt => -1,
        Opcode::Ge => -1,
        Opcode::Apply(n) => -(n as int),
        _ => 0,
    }
}

/// The sum of the depth changes of `ops`.
pub open spec fn net_change(ops: Seq<Opcode>) -> int
    decreases ops.len(),
{
    if ops.len() == 0 {
        0
    } else {
        depth_change(ops[0]) + net_change(ops.drop_first())
    }
}

/// `op` hands control to the next instruction of its activation: it is no
/// jump, no branch, no return and no call.
pub open spec fn is_straight(op: Opcode) -> bool {
    !(op is Jump || op is BranchTrue || op is BranchFalse || op is Return || op is Apply)
}

/// Stack balance of one instruction: a straight-line instruction that
/// succeeds moves its activation on to the next instruction and changes
/// the depth of its frame by its depth change; the activations below are as
/// they were.
pub proof fn lemma_step_balance(m: Machine)
    requires
        m.frames.len() > 0,
        ({
            let f = m.frames.last();
            &&& f.ctx.pc < f.code.ops.len() <= usize::MAX
            &&& f.ctx.top() < usize::MAX
            &&& is_straight(f.code.ops[f.ctx.pc as int])
        }),
        step(m).1 is Running,
    ensures
        ({
            let f = m.frames.last();
            let g = step(m).0.frames.last();
            &&& step(m).0.frames == m.frames.drop_last().push(g)
            &&& g.code == f.code
            &&& g.env == f.env
            &&& g.ctx.base == f.ctx.base
            &&& g.ctx.pc == f.ctx.pc + 1
            &&& g.ctx.index == f.ctx.index + depth_change(f.code.ops[f.ctx.pc as int])
        }),
{
}

/// The machine as a primitive leaves it: the heap is what the reply says,
/// and what the primitive returned has been taken in.
pub open spec fn answered(asked: Machine, reply: Reply) -> (Machine, Outcome) {
    deliver(Machine { heap: reply.heap, next_id: reply.next_id, ..asked }, reply.result)
}

/// Stack balance of a call of a primitive: where `Apply` finds a
/// registered primitive above its `n` arguments, and the primitive returns
/// a value, the activation moves on to the next instruction and the depth
/// of its frame changes by the depth change of `Apply`; the activations
/// below are as they were.
pub proof fn lemma_apply_balance(m: Machine, reply: Reply)
    requires
        m.frames.len() > 0,
        ({
            let f = m.frames.last();
            &&& f.ctx.pc < f.code.ops.len() <= usize::MAX
            &&& f.code.ops[f.ctx.pc as int] is Apply
        }),
        step(m).1 is Calling,
        reply.result is Ok,
    ensures
        run(m, 1, seq![reply]) == answered(step(m).0, reply),
        ({
            let f = m.frames.last();
            let (after, outcome) = answered(step(m).0, reply);
            let g = after.frames.last();
            &&& outcome is Running
            &&& after.frames == m.frames.drop_last().push(g)
            &&& g.code == f.code
            &&& g.env == f.env
            &&& g.ctx.base == f.ctx.base
            &&& g.ctx.pc == f.ctx.pc + 1
            &&& g.ctx.index == f.ctx.index + depth_change(f.code.ops[f.ctx.pc as int])
        }),
{
    let f = m.frames.last();
    let (asked, _) = step(m);
    let rest = asked.frames.last();
    assert(asked.frames.drop_last() =~= m.frames.drop_last());
    reveal_with_fuel(run, 2);
}

/// Every `Apply` among the next `k` steps of the machine applies a
/// primitive, none a block.
pub open spec fn applies_primitives(m: Machine, k: nat, replies: Seq<Reply>) -> bool
    decreases k,
{
    if k == 0 {
        true
    } else {
        let (after, outcome) = step(m);
        match outcome {
            Outcome::Running => {
                let f = m.frames.last();
                &&& !(m.frames.len() > 0 && f.ctx.pc < f.code.ops.len() && f.code.ops[f.ctx.pc as int]
                    is Apply)
                &&& applies_primitives(after, (k - 1) as nat, replies)
            },
            Outcome::Calling(_, _) => replies.len() > 0 && (answered(after, replies[0]).1
                is Running ==> applies_primitives(
                answered(after, replies[0]).0,
                (k - 1) as nat,
                replies.drop_first(),
            )),
            _ => true,
        }
    }
}

/// Stack balance: where the next `k` instructions of the running
/// activation are straight-line instructions or applications of
/// primitives, and all succeed, the depth of its frame changes by the sum
/// of their depth changes.
pub proof fn lemma_stack_balance(m: Machine, k: nat, replies: Seq<Reply>)
    requires
        m.frames.len() > 0,
        ({
            let f = m.frames.last();
            &&& f.ctx.pc + k <= f.code.ops.len() <= usize::MAX
            &&& f.ctx.top() + k <= usize::MAX
            &&& forall|i: int|
                f.ctx.pc <= i < f.ctx.pc + k ==> is_straight(#[trigger] f.code.ops[i])
                    || f.code.ops[i] is Apply
        }),
        applies_primitives(m, k, replies),
        run(m, k, replies).1 is Running,
    ensures
        ({
            let f = m.frames.last();
            let g = run(m, k, replies).0.frames.last();
            &&& run(m, k, replies).0.frames == m.frames.drop_last().push(g)
            &&& g.code == f.code
            &&& g.env == f.env
            &&& g.ctx.base == f.ctx.base
            &&& g.ctx.pc == f.ctx.pc + k
            &&& g.ctx.index == f.ctx.index + net_change(
                f.code.ops.subrange(f.ctx.pc as int, f.ctx.pc + k),
            )
        }),
    decreases k,
{
    let f = m.frames.last();
    if k == 0 {
        assert(m.frames =~= m.frames.drop_last().push(f));
    } else {
        let ops = f.code.ops.subrange(f.ctx.pc as int, f.ctx.pc + k);
        let op = f.code.ops[f.ctx.pc as int];
        assert(ops[0] == op);
        let (after, outcome) = step(m);
        if op is Apply {
            assert(outcome is Calling);
            let reply = replies[0];
            let (landed, delivered) = answered(after, reply);
            assert(delivered is Running);
            assert(reply.result is Ok);
            lemma_apply_balance(m, reply);
            let g = landed.frames.last();
            assert(landed.frames.drop_last() =~= m.frames.drop_last());
            assert(run(m, k, replies) == run(landed, (k - 1) as nat, replies.drop_first()));
            lemma_stack_balance(landed, (k - 1) as nat, replies.drop_first());
            assert(ops.drop_first() =~= g.code.ops.subrange(
                g.ctx.pc as int,
                g.ctx.pc + (k - 1),
            ));
        } else {
            assert(outcome is Running);
            lemma_step_balance(m);
            let g = after.frames.last();
            assert(after.frames.drop_last() =~= m.frames.drop_last());
            lemma_stack_balance(after, (k - 1) as nat, replies);
            assert(ops.drop_first() =~= g.code.ops.subrange(
                g.ctx.pc as int,
                g.ctx.pc + (k - 1),
            ));
        }
    }
}

/// Giving up references keeps a heap well-formed: every object that stays
/// is still counted at least once, and no object appears.
pub proof fn lemma_release_keeps_wf(h: Map<Id, RefView>, work: Seq<Value>, next_id: Id)
    requires
        heap_wf(h, next_id),
    ensures
        heap_wf(release_all(h, work), next_id),
        release_all(h, work).dom().subset_of(h.dom()),
    decreases h.dom().len(), work.len(),
{
    if work.len() > 0 {
        let rest = work.drop_last();
        match work.last() {
            Value::Ptr(id) => {
                if !h.contains_key(id) {
                    lemma_release_keeps_wf(h, rest, next_id);
                } else if h[id].count <= 1 {
                    lemma_release_keeps_wf(
                        h.remove(id),
                        rest + children(h[id].obj),
                        next_id,
                    );
                } else {
                    let lowered = h.insert(
                        id,
                        RefView { count: (h[id].count - 1) as usize, obj: h[id].obj },
                    );
                    assert(lowered.dom() =~= h.dom());
                    lemma_release_keeps_wf(lowered, rest, next_id);
                }
            },
            _ => {
                lemma_release_keeps_wf(h, rest, next_id);
            },
        }
    }
}

/// The heap's invariant holds of every state that a step reaches: where
/// every object is counted at least once and has an id that was handed
/// out, the same holds after the step, and the allocator has not gone
/// back.
pub proof fn lemma_step_keeps_heap_wf(m: Machine)
    requires
        heap_wf(m.heap, m.next_id),
    ensures
        heap_wf(step(m).0.heap, step(m).0.next_id),
        step(m).0.next_id >= m.next_id,
{
    if m.frames.len() > 0 {
        let f = m.frames.last();
        lemma_release_keeps_wf(
            m.heap,
            m.stack.subrange(f.ctx.base as int, f.ctx.base + f.ctx.index),
            m.next_id,
        );
        lemma_release_keeps_wf(
            m.heap,
            m.stack.subrange(f.ctx.base as int, f.ctx.base + (f.ctx.index - 1)),
            m.next_id,
        );
        if f.ctx.index > 0 && f.ctx.top() - 1 < m.stack.len() {
            lemma_release_keeps_wf(m.heap, seq![m.stack[f.ctx.top() - 1]], m.next_id);
        }
        if f.env < m.envs.len() && f.ctx.pc < f.code.ops.len() {
            match f.code.ops[f.ctx.pc as int] {
                Opcode::StorePop(name) => {
                    if m.envs[f.env as int].contains_key(name@) {
                        lemma_release_keeps_wf(
                            m.heap,
                            seq![m.envs[f.env as int][name@]],
                            m.next_id,
                        );
                    }
                },
                _ => {},
            }
        }
    }
}

/// The frames of the live activations lie one above the other: the
/// lowest begins at the bottom of the stack, each other one begins where
/// the one below it ends, and the array reaches the top of each.
pub open spec fn frames_stacked(m: Machine) -> bool {
    forall|i: int|
        0 <= i < m.frames.len() ==> {
            &&& (#[trigger] m.frames[i]).ctx.top() <= m.stack.len()
            &&& m.frames[i].ctx.base == (if i == 0 {
                0
            } else {
                m.frames[i - 1].ctx.top()
            })
        }
}

/// What a step does to the list of activations is one of four things: it
/// ends them all; it lets the running one run on in its frame; it begins
/// a callee on an empty frame above the running one; or it ends the
/// running one and hands a value to its caller.
pub open spec fn frames_follow(m: Machine, after: Machine) -> bool {
    let n = m.frames.len();
    let f = m.frames.last();
    let below = m.frames.drop_last();
    let g = after.frames.last();
    &&& after.stack.len() >= m.stack.len()
    &&& {
        ||| after.frames.len() == 0
        ||| {
            &&& after.frames == below.push(g)
            &&& g.ctx.base == f.ctx.base
            &&& g.ctx.top() <= after.stack.len()
        }
        ||| {
            let rest = after.frames.drop_last().last();
            &&& after.frames == below.push(rest).push(g)
            &&& rest.ctx.base == f.ctx.base
            &&& rest.ctx.top() <= after.stack.len()
            &&& g.ctx.base == rest.ctx.top()
            &&& g.ctx.top() <= after.stack.len()
        }
        ||| {
            &&& n >= 2
            &&& after.frames == below.drop_last().push(g)
            &&& g.ctx.base == below.last().ctx.base
            &&& g.ctx.top() <= after.stack.len()
        }
    }
}

proof fn lemma_step_shape(m: Machine)
    requires
        m.wf(),
        m.stack.len() < usize::MAX,
        m.frames.len() > 0,
        m.frames.last().ctx.top() <= m.stack.len(),
        m.frames.len() >= 2 ==> m.frames.drop_last().last().ctx.top()
            == m.frames.last().ctx.base,
    ensures
        frames_follow(m, step(m).0),
{
    let f = m.frames.last();
    let below = m.frames.drop_last();
    let after = step(m).0;
    assert(f == m.frames[m.frames.len() - 1]);
    if after.frames.len() > 0 {
        if f.ctx.pc < f.code.ops.len() && f.code.ops[f.ctx.pc as int] is Apply {
            let g = after.frames.last();
            let rest = after.frames.drop_last().last();
            if after.frames.len() == m.frames.len() + 1 {
                assert(after.frames.drop_last() =~= below.push(rest));
                assert(after.frames =~= below.push(rest).push(g));
            } else {
                assert(after.frames =~= below.push(g));
            }
        } else if f.ctx.pc >= f.code.ops.len() || f.code.ops[f.ctx.pc as int] is Return {
            let g = after.frames.last();
            assert(after.frames =~= below.drop_last().push(g));
        } else {
            let g = after.frames.last();
            assert(after.frames =~= below.push(g));
        }
    }
}

proof fn lemma_stacked_follow(m: Machine, after: Machine)
    requires
        frames_stacked(m),
        m.frames.len() > 0,
        frames_follow(m, after),
    ensures
        frames_stacked(after),
{
    let n = m.frames.len() as int;
    let f = m.frames[n - 1];
    let below = m.frames.drop_last();
    let g = after.frames.last();
    assert(m.frames.last() == f);
    if n >= 2 {
        assert(below.last() == m.frames[n - 2]);
        assert(m.frames[n - 2].ctx.top() == f.ctx.base);
    }
    assert forall|i: int| 0 <= i < below.len() implies below[i] == m.frames[i] by {}
    if after.frames.len() == 0 {
    } else if after.frames == below.push(g) && g.ctx.base == f.ctx.base {
        assert forall|i: int| 0 <= i < after.frames.len() implies {
            &&& (#[trigger] after.frames[i]).ctx.top() <= after.stack.len()
            &&& after.frames[i].ctx.base == (if i == 0 {
                0
            } else {
                after.frames[i - 1].ctx.top()
            })
        } by {
            if i < n - 1 {
                assert(after.frames[i] == m.frames[i]);
            }
            if i > 0 {
                assert(after.frames[i - 1] == m.frames[i - 1]);
            }
        }
    } else if n >= 2 && after.frames == below.drop_last().push(g) && g.ctx.base
        == below.last().ctx.base {
        assert forall|i: int| 0 <= i < after.frames.len() implies {
            &&& (#[trigger] after.frames[i]).ctx.top() <= after.stack.len()
            &&& after.frames[i].ctx.base == (if i == 0 {
                0
            } else {
                after.frames[i - 1].ctx.top()
            })
        } by {
            if i < n - 2 {
                assert(after.frames[i] == m.frames[i]);
            }
            if i > 0 {
                assert(after.frames[i - 1] == m.frames[i - 1]);
            }
        }
    } else {
        let rest = after.frames.drop_last().last();
        assert(after.frames == below.push(rest).push(g));
        assert forall|i: int| 0 <= i < after.frames.len() implies {
            &&& (#[trigger] after.frames[i]).ctx.top() <= after.stack.len()
            &&& after.frames[i].ctx.base == (if i == 0 {
                0
            } else {
                after.frames[i - 1].ctx.top()
            })
        } by {
            if i < n - 1 {
                assert(after.frames[i] == m.frames[i]);
            }
            if 0 < i && i - 1 < n - 1 {
                assert(after.frames[i - 1] == m.frames[i - 1]);
            }
            assert(after.frames[n - 1] == rest);
        }
    }
}

/// The frames stay stacked: where they lie one above the other before a
/// step, they do so after it.
pub proof fn lemma_step_keeps_frames_stacked(m: Machine)
    requires
        m.wf(),
        m.stack.len() < usize::MAX,
        frames_stacked(m),
    ensures
        frames_stacked(step(m).0),
{
    if m.frames.len() > 0 {
        let n = m.frames.len() as int;
        assert(m.frames.last() == m.frames[n - 1]);
        if n >= 2 {
            assert(m.frames.drop_last().last() == m.frames[n - 2]);
        }
        lemma_step_shape(m);
        lemma_stacked_follow(m, step(m).0);
    }
}

/// A run begins with stacked frames.
pub proof fn lemma_begin_frames_stacked(m: Machine, code: CodeView, env: Map<Seq<char>, Value>)
    ensures
        frames_stacked(begin(m, code, env)),
{
}

/// The frames stay stacked where the machine takes in what a primitive
/// returned.
pub proof fn lemma_deliver_keeps_frames_stacked(m: Machine, result: Result<Value, EngineError>)
    requires
        m.stack.len() < usize::MAX,
        frames_stacked(m),
    ensures
        frames_stacked(deliver(m, result).0),
{
    let after = deliver(m, result).0;
    if after.frames.len() > 0 {
        let n = m.frames.len() as int;
        let f = m.frames[n - 1];
        assert(m.frames.last() == f);
        let g = after.frames.last();
        assert(after.frames =~= m.frames.drop_last().push(g));
        if n >= 2 {
            assert(m.frames.drop_last().last() == m.frames[n - 2]);
        }
        assert(frames_follow(m, after));
        lemma_stacked_follow(m, after);
    }
}

proof fn lemma_step_spares_below(m: Machine, slot: int)
    requires
        m.wf(),
        m.frames.len() > 0,
        m.frames.last().ctx.top() <= m.stack.len(),
        m.frames.len() >= 2 ==> m.frames.drop_last().last().ctx.top()
            == m.frames.last().ctx.base,
        0 <= slot < m.frames.last().ctx.base,
    ensures
        slot < step(m).0.stack.len(),
        step(m).0.stack[slot] == m.stack[slot],
{
}

/// An activation never touches the frames of its callers: a step leaves
/// every slot below the frame of the running activation as it was.
pub proof fn lemma_step_spares_callers(m: Machine, slot: int)
    requires
        m.wf(),
        frames_stacked(m),
        m.frames.len() > 0,
        0 <= slot < m.frames.last().ctx.base,
    ensures
        slot < step(m).0.stack.len(),
        step(m).0.stack[slot] == m.stack[slot],
{
    let n = m.frames.len() as int;
    assert(m.frames.last() == m.frames[n - 1]);
    if n >= 2 {
        assert(m.frames.drop_last().last() == m.frames[n - 2]);
    }
    lemma_step_spares_below(m, slot);
}

} // verus!
