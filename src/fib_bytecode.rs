//! The doubly recursive Fibonacci function in bytecode, and the proof that the
//! machine computes the Fibonacci numbers with it.
use vstd::prelude::*;

use crate::bbq::Function;
use crate::lemmas::{lemma_ip_discipline, lemma_step_shape, next_ip};
use crate::opcodes::{Argument, CmpBinOpType, IntBinOpType, OpCode};
use crate::registers::{RegisterCounts, RegisterType};
use crate::semantics::{lemma_steps_add, step, steps, MachineState, Pools};
use crate::values::IntValue;
use crate::{lemma_fib_monotonic, spec_fib};

verus! {

/// `f` is the bytecode of `fib(n) = n if n < 2 else fib(n - 1) + fib(n - 2)`, with
/// n in integer register 0, reading 2, 1, 2 from the constant pool and itself from
/// global 0.
pub open spec fn is_fib_function(f: &Function) -> bool {
    let code = f.code@;
    &&& f.local_count == RegisterCounts { ints: 9, bools: 1, funcs: 2 }
    &&& code.len() == 14
    &&& code[0] == OpCode::IntConstantLoad { index: 0, target: 1 }
    &&& code[1] == OpCode::IntBoolBinOp { typ: CmpBinOpType::LT, left_operand: 0, right_operand: 1, result: 0 }
    &&& code[2] == OpCode::JumpIfFalse { condition: 0, target: 4 }
    &&& code[3] == OpCode::ReturnValue { index: 0 }
    &&& code[4] == OpCode::IntConstantLoad { index: 1, target: 2 }
    &&& code[5] == OpCode::IntIntBinOp { typ: IntBinOpType::Sub, left_operand: 0, right_operand: 2, result: 3 }
    &&& code[6] == OpCode::GlobalFuncLoad { index: 0, result: 0 }
    &&& code[7] is Call && code[7]->func_index == 0 && code[7]->Call_result == 4
    &&& code[7]->arguments@ == seq![Argument { typ: RegisterType::Int, index: 3 }]
    &&& code[8] == OpCode::IntConstantLoad { index: 2, target: 5 }
    &&& code[9] == OpCode::IntIntBinOp { typ: IntBinOpType::Sub, left_operand: 0, right_operand: 5, result: 6 }
    &&& code[10] == OpCode::GlobalFuncLoad { index: 0, result: 1 }
    &&& code[11] is Call && code[11]->func_index == 1 && code[11]->Call_result == 7
    &&& code[11]->arguments@ == seq![Argument { typ: RegisterType::Int, index: 6 }]
    &&& code[12] == OpCode::IntIntBinOp { typ: IntBinOpType::Add, left_operand: 4, right_operand: 7, result: 8 }
    &&& code[13] == OpCode::ReturnValue { index: 8 }
}

/// The pools that the Fibonacci bytecode `f` reads.
pub open spec fn is_fib_pools<'a>(pools: Pools<'a>, f: &'a Function) -> bool {
    &&& pools.constants == seq![IntValue { value: 2 }, IntValue { value: 1 }, IntValue { value: 2 }]
    &&& pools.globals.len() >= 1
    &&& pools.globals[0].function == f
}

/// How many steps the Fibonacci bytecode takes on n, its own return included.
pub open spec fn fib_steps(n: nat) -> nat
    decreases n,
{
    if n < 2 {
        4
    } else {
        fib_steps((n - 1) as nat) + fib_steps((n - 2) as nat) + 13
    }
}

/// The state after the running frame of `m` returns `v`.
pub open spec fn returned<'a>(m: MachineState<'a>, v: IntValue) -> MachineState<'a> {
    let rest = m.frames.drop_last();
    if rest.len() == 0 {
        MachineState { frames: rest, return_value: v }
    } else {
        MachineState {
            frames: rest.update(
                rest.len() - 1,
                rest.last().with_locals(rest.last().locals.set_int(m.top().return_to_index, v)),
            ),
            return_value: m.return_value,
        }
    }
}

/// `s` is `m0` with its running frame, which runs `f`, at `ip`.
spec fn at<'a>(m0: MachineState<'a>, s: MachineState<'a>, f: &'a Function, ip: int) -> bool {
    &&& s.depth() == m0.depth()
    &&& s.depth() >= 1
    &&& s.frames.drop_last() == m0.frames.drop_last()
    &&& s.return_value == m0.return_value
    &&& s.top().function == f
    &&& s.top().ip == ip
    &&& s.top().return_to_index == m0.top().return_to_index
    &&& s.top().locals.ints.len() == 9
    &&& s.top().locals.bools.len() == 1
    &&& s.top().locals.funcs.len() == 2
}

/// A frame of the Fibonacci bytecode about to start on n.
spec fn fib_entry<'a>(pools: Pools<'a>, f: &'a Function, m: MachineState<'a>, n: nat) -> bool {
    &&& is_fib_function(f)
    &&& is_fib_pools(pools, f)
    &&& at(m, m, f, 0)
    &&& m.top().locals.ints[0] == IntValue { value: n as isize }
    &&& n <= isize::MAX
    &&& spec_fib(n) <= isize::MAX
    &&& m.depth() >= 2 ==> m.top().return_to_index < m.frames[m.depth() - 2].locals.ints.len()
}

/// A step that is not a call or a return keeps the frame running.
proof fn lemma_local_step<'a>(
    pools: Pools<'a>,
    m0: MachineState<'a>,
    s: MachineState<'a>,
    f: &'a Function,
    ip: int,
    k: nat,
) -> (t: MachineState<'a>)
    requires
        at(m0, s, f, ip),
        !s.is_stopped(),
        step(pools, s) is Ok,
        !(s.current_op() is Call),
        !(s.current_op() is ReturnValue),
    ensures
        t == step(pools, s)->Ok_0,
        at(m0, t, f, next_ip(s) as int),
        steps(pools, s, k + 1) == steps(pools, t, k),
{
    lemma_step_shape(pools, s);
    lemma_ip_discipline(pools, s);
    let t = step(pools, s)->Ok_0;
    match s.current_op() {
        OpCode::IntConstantLoad { .. } => {},
        OpCode::IntIntBinOp { .. } => {},
        OpCode::IntBoolBinOp { .. } => {},
        OpCode::GlobalFuncLoad { .. } => {},
        _ => {},
    }
    assert((k + 1) as nat - 1 == k);
    t
}

/// `ReturnValue { index }` hands `ints[index]` to whoever called the frame of `m0`.
proof fn lemma_return_step<'a>(
    pools: Pools<'a>,
    m0: MachineState<'a>,
    s: MachineState<'a>,
    f: &'a Function,
    ip: int,
    index: usize,
)
    requires
        at(m0, s, f, ip),
        0 <= ip < f.code@.len(),
        s.current_op() == (OpCode::ReturnValue { index }),
        index < 9,
        m0.depth() >= 2 ==> m0.top().return_to_index < m0.frames[m0.depth() - 2].locals.ints.len(),
    ensures
        steps(pools, s, 1) == Some(returned(m0, s.top().locals.ints[index as int])),
{
    let fs = s.fetched();
    assert(fs.frames.drop_last() =~= s.frames.drop_last());
    let v = s.top().locals.ints[index as int];
    let end = returned(m0, v);
    assert(step(pools, s) == Ok::<MachineState<'a>, crate::semantics::VmError>(end)) by {
        let rest = fs.frames.drop_last();
        if rest.len() > 0 {
            assert(rest.last() == m0.frames[m0.depth() - 2]);
        }
    }
    assert(steps(pools, end, 0) == Some(end));
}

/// The first three steps: load 2, compare, and go on at 3 when n < 2, else at 4.
proof fn lemma_fib_test<'a>(pools: Pools<'a>, f: &'a Function, m: MachineState<'a>, n: nat, k: nat) -> (s3:
    MachineState<'a>)
    requires
        fib_entry(pools, f, m, n),
    ensures
        at(m, s3, f, if n < 2 { 3 } else { 4 }),
        s3.top().locals.ints[0] == m.top().locals.ints[0],
        steps(pools, m, k + 3) == steps(pools, s3, k),
{
    let s1 = lemma_local_step(pools, m, m, f, 0, k + 2);
    assert(s1.top().locals.ints[1] == IntValue { value: 2 });
    let s2 = lemma_local_step(pools, m, s1, f, 1, k + 1);
    assert(s2.top().locals.bools[0].value == (n < 2));
    let s3 = lemma_local_step(pools, m, s2, f, 2, k);
    assert(k + 2 + 1 == k + 3);
    s3
}

/// A call of the Fibonacci bytecode from its own frame at `ip` (7 or 11), whose
/// argument register holds `arg`.
proof fn lemma_call_step<'a>(
    pools: Pools<'a>,
    f: &'a Function,
    m0: MachineState<'a>,
    s: MachineState<'a>,
    ip: int,
    k: nat,
) -> (c: MachineState<'a>)
    requires
        is_fib_function(f),
        is_fib_pools(pools, f),
        at(m0, s, f, ip),
        ip == 7 || ip == 11,
        s.top().locals.funcs[if ip == 7 { 0int } else { 1int }] == Some(pools.globals[0]),
    ensures
        step(pools, s) == Ok::<MachineState<'a>, crate::semantics::VmError>(c),
        steps(pools, s, k + 1) == steps(pools, c, k),
        c.depth() == s.depth() + 1,
        c.frames.drop_last() == s.fetched().frames,
        c.return_value == s.return_value,
        c.top().function == f,
        c.top().ip == 0,
        c.top().locals.ints.len() == 9,
        c.top().locals.bools.len() == 1,
        c.top().locals.funcs.len() == 2,
        c.top().locals.ints[0] == s.top().locals.ints[if ip == 7 { 3int } else { 6int }],
        c.top().return_to_index == if ip == 7 { 4usize } else { 7usize },
{
    let args = s.current_op()->arguments@;
    assert(args.drop_last() =~= Seq::<Argument>::empty());
    let ints = crate::semantics::kind_sources(args, RegisterType::Int);
    assert(ints == seq![if ip == 7 { 3usize } else { 6usize }]) by {
        assert(crate::semantics::kind_sources(args.drop_last(), RegisterType::Int) =~= Seq::<usize>::empty());
    }
    assert(crate::semantics::kind_sources(args, RegisterType::Bool) =~= Seq::<usize>::empty()) by {
        assert(crate::semantics::kind_sources(args.drop_last(), RegisterType::Bool) =~= Seq::<usize>::empty());
    }
    assert(crate::semantics::kind_sources(args, RegisterType::Func) =~= Seq::<usize>::empty()) by {
        assert(crate::semantics::kind_sources(args.drop_last(), RegisterType::Func) =~= Seq::<usize>::empty());
    }
    assert(step(pools, s) is Ok);
    lemma_step_shape(pools, s);
    let c = step(pools, s)->Ok_0;
    let n = s.depth() as int;
    assert(c.frames.drop_last() =~= c.frames.subrange(0, n));
    assert((k + 1) as nat - 1 == k);
    c
}

/// What a callee's return does to the caller frame of `m0` that called it at `ip`.
proof fn lemma_returned_to_caller<'a>(
    m0: MachineState<'a>,
    s: MachineState<'a>,
    c: MachineState<'a>,
    f: &'a Function,
    ip: int,
    result: usize,
    v: IntValue,
)
    requires
        at(m0, s, f, ip),
        0 <= ip < 14,
        c.depth() == s.depth() + 1,
        c.frames.drop_last() == s.fetched().frames,
        c.return_value == s.return_value,
        c.top().return_to_index == result,
        result < 9,
    ensures
        at(m0, returned(c, v), f, ip + 1),
        returned(c, v).top().locals == s.top().locals.set_int(result, v),
{
    let r = returned(c, v);
    let rest = c.frames.drop_last();
    assert(rest.last() == s.top().with_ip((s.top().ip + 1) as usize));
    assert(r.frames.drop_last() =~= s.frames.drop_last());
}

/// From the start of a frame on n >= 2 up to and including the first call.
proof fn lemma_fib_to_first_call<'a>(pools: Pools<'a>, f: &'a Function, m: MachineState<'a>, n: nat, k: nat) -> (sc: (
    MachineState<'a>,
    MachineState<'a>,
))
    requires
        fib_entry(pools, f, m, n),
        n >= 2,
    ensures
        at(m, sc.0, f, 7),
        sc.0.top().locals.ints[0] == m.top().locals.ints[0],
        steps(pools, m, k + 7) == steps(pools, sc.1, k),
        sc.1.depth() == sc.0.depth() + 1,
        sc.1.frames.drop_last() == sc.0.fetched().frames,
        sc.1.return_value == sc.0.return_value,
        fib_entry(pools, f, sc.1, (n - 1) as nat),
        sc.1.top().return_to_index == 4,
{
    let s4 = lemma_fib_test(pools, f, m, n, k + 4);
    let s5 = lemma_local_step(pools, m, s4, f, 4, k + 3);
    let s6 = lemma_local_step(pools, m, s5, f, 5, k + 2);
    assert(s6.top().locals.ints[3] == IntValue { value: (n - 1) as isize });
    let s7 = lemma_local_step(pools, m, s6, f, 6, k + 1);
    let c = lemma_call_step(pools, f, m, s7, 7, k);
    lemma_fib_monotonic((n - 1) as nat, n);
    assert(c.frames.drop_last() =~= c.frames.drop_last());
    assert(at(c, c, f, 0));
    assert(c.frames[c.depth() - 2] == s7.fetched().top());
    assert(k + 4 + 3 == k + 7);
    (s7, c)
}

/// After the first call returned: on to and including the second call.
proof fn lemma_fib_to_second_call<'a>(
    pools: Pools<'a>,
    f: &'a Function,
    m: MachineState<'a>,
    n: nat,
    s7: MachineState<'a>,
    c1: MachineState<'a>,
    k: nat,
) -> (sc: (MachineState<'a>, MachineState<'a>))
    requires
        fib_entry(pools, f, m, n),
        n >= 2,
        at(m, s7, f, 7),
        s7.top().locals.ints[0] == m.top().locals.ints[0],
        c1.depth() == s7.depth() + 1,
        c1.frames.drop_last() == s7.fetched().frames,
        c1.return_value == s7.return_value,
        c1.top().return_to_index == 4,
    ensures
        ({
            let v1 = IntValue { value: spec_fib((n - 1) as nat) as isize };
            &&& at(m, sc.0, f, 11)
            &&& sc.0.top().locals.ints[4] == v1
            &&& steps(pools, returned(c1, v1), k + 4) == steps(pools, sc.1, k)
            &&& sc.1.depth() == sc.0.depth() + 1
            &&& sc.1.frames.drop_last() == sc.0.fetched().frames
            &&& sc.1.return_value == sc.0.return_value
            &&& fib_entry(pools, f, sc.1, (n - 2) as nat)
            &&& sc.1.top().return_to_index == 7
        }),
{
    let v1 = IntValue { value: spec_fib((n - 1) as nat) as isize };
    lemma_returned_to_caller(m, s7, c1, f, 7, 4, v1);
    let s8 = returned(c1, v1);
    let s9 = lemma_local_step(pools, m, s8, f, 8, k + 3);
    let s10 = lemma_local_step(pools, m, s9, f, 9, k + 2);
    assert(s10.top().locals.ints[6] == IntValue { value: (n - 2) as isize });
    let s11 = lemma_local_step(pools, m, s10, f, 10, k + 1);
    let c = lemma_call_step(pools, f, m, s11, 11, k);
    lemma_fib_monotonic((n - 2) as nat, n);
    assert(c.frames.drop_last() =~= c.frames.drop_last());
    assert(at(c, c, f, 0));
    assert(c.frames[c.depth() - 2] == s11.fetched().top());
    (s11, c)
}

/// After the second call returned: add and return.
proof fn lemma_fib_finish<'a>(
    pools: Pools<'a>,
    f: &'a Function,
    m: MachineState<'a>,
    n: nat,
    s11: MachineState<'a>,
    c2: MachineState<'a>,
)
    requires
        fib_entry(pools, f, m, n),
        n >= 2,
        at(m, s11, f, 11),
        s11.top().locals.ints[4] == (IntValue { value: spec_fib((n - 1) as nat) as isize }),
        c2.depth() == s11.depth() + 1,
        c2.frames.drop_last() == s11.fetched().frames,
        c2.return_value == s11.return_value,
        c2.top().return_to_index == 7,
    ensures
        steps(pools, returned(c2, IntValue { value: spec_fib((n - 2) as nat) as isize }), 2) == Some(
            returned(m, IntValue { value: spec_fib(n) as isize }),
        ),
{
    let v2 = IntValue { value: spec_fib((n - 2) as nat) as isize };
    lemma_returned_to_caller(m, s11, c2, f, 11, 7, v2);
    let s12 = returned(c2, v2);
    let s13 = lemma_local_step(pools, m, s12, f, 12, 1);
    assert(s13.top().locals.ints[8] == IntValue { value: spec_fib(n) as isize });
    lemma_return_step(pools, m, s13, f, 13, 8);
}

/// The bytecode returns the Fibonacci number of its argument to its caller, after
/// `fib_steps(n)` steps.
pub proof fn lemma_fib_frame<'a>(pools: Pools<'a>, f: &'a Function, m: MachineState<'a>, n: nat)
    requires
        is_fib_function(f),
        is_fib_pools(pools, f),
        m.depth() >= 1,
        m.top().function == f,
        m.top().ip == 0,
        m.top().locals.ints.len() == 9,
        m.top().locals.bools.len() == 1,
        m.top().locals.funcs.len() == 2,
        m.top().locals.ints[0] == (IntValue { value: n as isize }),
        n <= isize::MAX,
        spec_fib(n) <= isize::MAX,
        m.depth() >= 2 ==> m.top().return_to_index < m.frames[m.depth() - 2].locals.ints.len(),
    ensures
        steps(pools, m, fib_steps(n)) == Some(returned(m, IntValue { value: spec_fib(n) as isize })),
    decreases n,
{
    assert(m.frames.drop_last() == m.frames.drop_last());
    assert(at(m, m, f, 0));
    if n < 2 {
        let s3 = lemma_fib_test(pools, f, m, n, 1);
        lemma_return_step(pools, m, s3, f, 3, 0);
    } else {
        let t1 = fib_steps((n - 1) as nat);
        let t2 = fib_steps((n - 2) as nat);
        let (s7, c1) = lemma_fib_to_first_call(pools, f, m, n, t1 + t2 + 6);
        lemma_fib_frame(pools, f, c1, (n - 1) as nat);
        let v1 = IntValue { value: spec_fib((n - 1) as nat) as isize };
        lemma_steps_add(pools, c1, t1, t2 + 6);
        let (s11, c2) = lemma_fib_to_second_call(pools, f, m, n, s7, c1, t2 + 2);
        lemma_fib_frame(pools, f, c2, (n - 2) as nat);
        let v2 = IntValue { value: spec_fib((n - 2) as nat) as isize };
        lemma_steps_add(pools, c2, t2, 2);
        lemma_fib_finish(pools, f, m, n, s11, c2);
        assert(fib_steps(n) == t1 + t2 + 13);
        assert(t1 + t2 + 6 + 7 == fib_steps(n));
        assert(t2 + 2 + 4 == t2 + 6);
    }
}

/// The step count in closed form.
pub proof fn lemma_fib_steps_closed(n: nat)
    ensures
        fib_steps(n) + 13 == 17 * spec_fib(n + 1),
    decreases n,
{
    if n >= 2 {
        lemma_fib_steps_closed((n - 1) as nat);
        lemma_fib_steps_closed((n - 2) as nat);
        assert(spec_fib(n + 1) == spec_fib(n) + spec_fib((n - 1) as nat));
    } else {
        assert(spec_fib(2) == spec_fib(1) + spec_fib(0));
    }
}

/// From 5 on, n is at most its Fibonacci number.
pub proof fn lemma_fib_at_least(n: nat)
    requires
        n >= 5,
    ensures
        n <= spec_fib(n),
    decreases n,
{
    if n <= 6 {
        assert(spec_fib(0) == 0);
        assert(spec_fib(1) == 1);
        assert(spec_fib(2) == 1);
        assert(spec_fib(3) == 2);
        assert(spec_fib(4) == 3);
        assert(spec_fib(5) == 5);
        assert(spec_fib(6) == 8);
    } else {
        lemma_fib_at_least((n - 1) as nat);
        lemma_fib_monotonic(1, (n - 2) as nat);
    }
}

} // verus!
