//! Laws of the machine, proved over its semantics.
use vstd::prelude::*;

use crate::bbq::Function;
use crate::opcodes::OpCode;
use crate::registers::RegisterType;
use crate::semantics::{
    fresh_bank, invoke_spec, kind_sources, lemma_steps_add, lemma_steps_last, step, steps, MachineState,
    Pools,
};
use crate::values::IntValue;

verus! {

/// What one step does to the call stack: a call pushes one frame above the caller
/// (whose `ip` has moved past the call), a return pops one frame and writes only the
/// caller's receiving register, and any other instruction changes the running frame
/// alone, never its function or its receiving register.
pub proof fn lemma_step_shape<'a>(pools: Pools<'a>, s: MachineState<'a>)
    requires
        !s.is_stopped(),
        step(pools, s) is Ok,
    ensures
        ({
            let t = step(pools, s)->Ok_0;
            let n = s.depth() as int;
            match s.current_op() {
                OpCode::Call { .. } => t.depth() == n + 1 && t.frames.subrange(0, n) == s.fetched().frames,
                OpCode::ReturnValue { index } => {
                    &&& t.depth() == n - 1
                    &&& n >= 2 ==> t.frames.subrange(0, n - 2) == s.frames.subrange(0, n - 2)
                    &&& n >= 2 ==> t.frames[n - 2] == s.frames[n - 2].with_locals(
                        s.frames[n - 2].locals.set_int(s.top().return_to_index, s.top().locals.ints[index as int]),
                    )
                },
                _ => {
                    &&& t.depth() == n
                    &&& t.frames.subrange(0, n - 1) == s.frames.subrange(0, n - 1)
                    &&& t.top().return_to_index == s.top().return_to_index
                    &&& t.top().function == s.top().function
                },
            }
        }),
{
    let t = step(pools, s)->Ok_0;
    let n = s.depth() as int;
    let f = s.fetched();
    assert(f.frames.subrange(0, n - 1) =~= s.frames.subrange(0, n - 1));
    match s.current_op() {
        OpCode::Call { .. } => {
            assert(t.frames.subrange(0, n) =~= f.frames);
        },
        OpCode::ReturnValue { index } => {
            if n >= 2 {
                assert(t.frames.subrange(0, n - 2) =~= s.frames.subrange(0, n - 2));
            }
        },
        _ => {
            assert(t.frames.subrange(0, n - 1) =~= f.frames.subrange(0, n - 1));
        },
    }
}

/// Where the running frame fetches next after its current instruction: the target
/// of a `Jump`, or of a `JumpIfFalse` whose condition is false; otherwise the
/// following instruction.
pub open spec fn next_ip<'a>(m: MachineState<'a>) -> usize {
    let ip = (m.top().ip + 1) as usize;
    match m.current_op() {
        OpCode::Jump { target } => target,
        OpCode::JumpIfFalse { condition, target } => if !m.top().locals.bools[condition as int].value {
            target
        } else {
            ip
        },
        _ => ip,
    }
}

/// The instruction pointer: an instruction other than a call or a return leaves the
/// same frame running, and the next fetch is at the following instruction, or at
/// the target of a `Jump` or of a `JumpIfFalse` that is taken.
pub proof fn lemma_ip_discipline<'a>(pools: Pools<'a>, m: MachineState<'a>)
    requires
        !m.is_stopped(),
        step(pools, m) is Ok,
        !(m.current_op() is Call),
        !(m.current_op() is ReturnValue),
    ensures
        (step(pools, m)->Ok_0).depth() == m.depth(),
        (step(pools, m)->Ok_0).top().function == m.top().function,
        (step(pools, m)->Ok_0).top().ip == next_ip(m),
{
    lemma_step_shape(pools, m);
}

/// The calling convention: after a `Call`, the new frame runs the called function
/// from its first instruction, and holds the k-th argument of each kind at index k
/// of that kind's bank, read from the caller's registers, whatever the arguments
/// of the other kinds; its other registers are fresh.
pub proof fn lemma_calling_convention<'a>(pools: Pools<'a>, m: MachineState<'a>)
    requires
        !m.is_stopped(),
        step(pools, m) is Ok,
        m.current_op() is Call,
    ensures
        ({
            let callee = (step(pools, m)->Ok_0).top();
            let caller = m.top().locals;
            let args = m.current_op()->arguments@;
            let fresh = fresh_bank::<'a>(callee.function.local_count);
            let ints = kind_sources(args, RegisterType::Int);
            let bools = kind_sources(args, RegisterType::Bool);
            let funcs = kind_sources(args, RegisterType::Func);
            &&& callee.ip == 0
            &&& callee.return_to_index == m.current_op()->Call_result
            &&& Some(crate::values::FunctionValue { function: callee.function })
                == caller.funcs[m.current_op()->func_index as int]
            &&& callee.locals.ints.len() == fresh.ints.len()
            &&& callee.locals.bools.len() == fresh.bools.len()
            &&& callee.locals.funcs.len() == fresh.funcs.len()
            &&& forall|k: int|
                0 <= k < callee.locals.ints.len() ==> #[trigger] callee.locals.ints[k] == if k < ints.len() {
                    caller.ints[ints[k] as int]
                } else {
                    fresh.ints[k]
                }
            &&& forall|k: int|
                0 <= k < callee.locals.bools.len() ==> #[trigger] callee.locals.bools[k] == if k < bools.len() {
                    caller.bools[bools[k] as int]
                } else {
                    fresh.bools[k]
                }
            &&& forall|k: int|
                0 <= k < callee.locals.funcs.len() ==> #[trigger] callee.locals.funcs[k] == if k < funcs.len() {
                    caller.funcs[funcs[k] as int]
                } else {
                    fresh.funcs[k]
                }
        }),
{
}

/// While every frame at or below index `d` stays on the stack, the frames below
/// index `d` are untouched and the frame at `d` keeps its receiving register.
pub proof fn lemma_frames_below_kept<'a>(pools: Pools<'a>, m: MachineState<'a>, k: nat, d: int)
    requires
        0 <= d < m.depth(),
        steps(pools, m, k) is Some,
        forall|j: nat| 0 < j <= k ==> #[trigger] (steps(pools, m, j)->Some_0).depth() > d,
    ensures
        (steps(pools, m, k)->Some_0).frames.subrange(0, d) == m.frames.subrange(0, d),
        (steps(pools, m, k)->Some_0).frames[d].return_to_index == m.frames[d].return_to_index,
    decreases k,
{
    if k > 0 {
        let k1 = (k - 1) as nat;
        lemma_steps_last(pools, m, k1);
        assert forall|j: nat| 0 < j <= k1 implies #[trigger] (steps(pools, m, j)->Some_0).depth() > d by {
            assert((steps(pools, m, j)->Some_0).depth() > d);
        }
        lemma_frames_below_kept(pools, m, k1, d);
        let s = steps(pools, m, k1)->Some_0;
        let t = step(pools, s)->Ok_0;
        assert((steps(pools, m, k)->Some_0).depth() > d);
        assert(t.depth() > d);
        lemma_step_shape(pools, s);
        let n = s.depth() as int;
        assert(s.frames.subrange(0, d) == m.frames.subrange(0, d));
        match s.current_op() {
            OpCode::Call { .. } => {
                assert(t.frames.subrange(0, d) =~= t.frames.subrange(0, n).subrange(0, d));
                assert(t.frames[d] == t.frames.subrange(0, n)[d]);
                assert(t.frames.subrange(0, d) =~= s.frames.subrange(0, d));
            },
            OpCode::ReturnValue { .. } => {
                assert(t.frames.subrange(0, d) =~= t.frames.subrange(0, n - 2).subrange(0, d));
                assert(s.frames.subrange(0, d) =~= s.frames.subrange(0, n - 2).subrange(0, d));
                if d < n - 2 {
                    assert(t.frames[d] == t.frames.subrange(0, n - 2)[d]);
                    assert(s.frames[d] == s.frames.subrange(0, n - 2)[d]);
                }
            },
            _ => {
                assert(t.frames.subrange(0, d) =~= t.frames.subrange(0, n - 1).subrange(0, d));
                assert(s.frames.subrange(0, d) =~= s.frames.subrange(0, n - 1).subrange(0, d));
                if d < n - 1 {
                    assert(t.frames[d] == t.frames.subrange(0, n - 1)[d]);
                    assert(s.frames[d] == s.frames.subrange(0, n - 1)[d]);
                }
            },
        }
    }
}

/// Stack balance: when a `Call` at depth d is followed by steps that all stay above
/// depth d until the first state at depth d or less, that state is at depth exactly
/// d, and the step that reached it was a `ReturnValue` of the called frame.
pub proof fn lemma_call_returns_to_depth<'a>(pools: Pools<'a>, m: MachineState<'a>, k: nat)
    requires
        !m.is_stopped(),
        m.current_op() is Call,
        k >= 1,
        steps(pools, m, k) is Some,
        forall|j: nat| 1 <= j < k ==> #[trigger] (steps(pools, m, j)->Some_0).depth() > m.depth(),
        (steps(pools, m, k)->Some_0).depth() <= m.depth(),
    ensures
        k >= 2,
        (steps(pools, m, k)->Some_0).depth() == m.depth(),
        (steps(pools, m, (k - 1) as nat)->Some_0).depth() == m.depth() + 1,
        (steps(pools, m, (k - 1) as nat)->Some_0).current_op() is ReturnValue,
{
    let k1 = (k - 1) as nat;
    lemma_steps_last(pools, m, k1);
    let s = steps(pools, m, k1)->Some_0;
    lemma_step_shape(pools, s);
    if k1 == 0 {
        assert(s == m);
    } else {
        assert((steps(pools, m, k1)->Some_0).depth() > m.depth());
    }
}

/// Register isolation: a `Call` and everything the called frame does until it
/// returns leave the frames below the caller untouched, and leave the caller's
/// registers as they were except integer register `result` of the call, which
/// receives the returned value; the caller resumes after the call.
pub proof fn lemma_call_isolates_caller<'a>(pools: Pools<'a>, m: MachineState<'a>, k: nat)
    requires
        !m.is_stopped(),
        m.current_op() is Call,
        k >= 1,
        steps(pools, m, k) is Some,
        forall|j: nat| 1 <= j < k ==> #[trigger] (steps(pools, m, j)->Some_0).depth() > m.depth(),
        (steps(pools, m, k)->Some_0).depth() <= m.depth(),
    ensures
        ({
            let end = steps(pools, m, k)->Some_0;
            let d = m.depth() as int;
            let result = m.current_op()->Call_result;
            let caller = m.top();
            &&& end.depth() == d
            &&& end.frames.subrange(0, d - 1) == m.frames.subrange(0, d - 1)
            &&& result < caller.locals.ints.len()
            &&& end.top().locals.ints == caller.locals.ints.update(result as int, end.top().locals.ints[result as int])
            &&& end.top().locals.bools == caller.locals.bools
            &&& end.top().locals.funcs == caller.locals.funcs
            &&& end.top().ip == caller.ip + 1
            &&& end.top().function == caller.function
            &&& end.top().return_to_index == caller.return_to_index
        }),
{
    let d = m.depth() as int;
    lemma_call_returns_to_depth(pools, m, k);
    let k1 = (k - 1) as nat;
    let k2 = (k - 2) as nat;
    lemma_steps_last(pools, m, k1);
    assert(step(pools, m) is Ok);
    let m1 = step(pools, m)->Ok_0;
    assert(steps(pools, m, 0) == Some(m));
    assert(steps(pools, m1, 0) == Some(m1));
    assert(steps(pools, m, 1) == Some(m1));
    lemma_step_shape(pools, m);
    lemma_steps_add(pools, m, 1, k2);
    assert(1 + k2 == k1);
    assert forall|j: nat| 0 < j <= k2 implies #[trigger] (steps(pools, m1, j)->Some_0).depth() > d by {
        lemma_steps_add(pools, m, 1, j);
        assert((steps(pools, m, 1 + j)->Some_0).depth() > d);
    }
    lemma_frames_below_kept(pools, m1, k2, d);
    let s = steps(pools, m, k1)->Some_0;
    let end = step(pools, s)->Ok_0;
    lemma_step_shape(pools, s);
    assert(m1.frames.subrange(0, d) == m.fetched().frames);
    assert(s.frames.subrange(0, d) == m.fetched().frames);
    assert(s.frames[d - 1] == s.frames.subrange(0, d)[d - 1]);
    assert(s.frames[d - 1] == m.top().with_ip((m.top().ip + 1) as usize));
    assert(s.top() == s.frames[d]);
    assert(end.top() == end.frames[d - 1]);
    assert(end.frames.subrange(0, d - 1) =~= m.frames.subrange(0, d - 1)) by {
        assert(end.frames.subrange(0, d - 1) == s.frames.subrange(0, d - 1));
        assert(s.frames.subrange(0, d - 1) =~= s.frames.subrange(0, d).subrange(0, d - 1));
        assert(m.fetched().frames.subrange(0, d - 1) =~= m.frames.subrange(0, d - 1));
    }
    assert(end.top().locals.ints =~= m.top().locals.ints.update(
        m.current_op()->Call_result as int,
        end.top().locals.ints[m.current_op()->Call_result as int],
    ));
}

/// Determinism: invoking the same function on the same argument, from machines in
/// the same state with the same pools, yields the same final state and the same
/// result.
pub proof fn lemma_invoke_deterministic<'a>(
    pools1: Pools<'a>,
    m1: MachineState<'a>,
    pools2: Pools<'a>,
    m2: MachineState<'a>,
    function: &'a Function,
    argument: IntValue,
)
    requires
        pools1 == pools2,
        m1 == m2,
    ensures
        invoke_spec(pools1, m1, function, argument) == invoke_spec(pools2, m2, function, argument),
{
}

} // verus!
