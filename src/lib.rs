use vstd::prelude::*;

pub mod bbq;
pub mod fib_bytecode;
pub mod lemmas;
pub mod opcodes;
pub mod registers;
pub mod semantics;
pub mod values;
pub mod vm;

use crate::bbq::Function;
use crate::fib_bytecode::{
    is_fib_function, is_fib_pools, lemma_fib_at_least, lemma_fib_frame, lemma_fib_steps_closed, fib_steps,
};
use crate::opcodes::{Argument, OpCode};
use crate::registers::{RegisterCounts, RegisterType};
use crate::semantics::{entry_state, lemma_run_after_steps, step_budget};
use crate::values::{FunctionValue, IntValue};
use crate::vm::VM;

verus! {

/// The Fibonacci numbers: 0, 1, 1, 2, 3, 5, ...
pub open spec fn spec_fib(n: nat) -> nat
    decreases n,
{
    if n < 2 {
        n
    } else {
        spec_fib((n - 1) as nat) + spec_fib((n - 2) as nat)
    }
}

/// The Fibonacci numbers never decrease.
pub proof fn lemma_fib_monotonic(i: nat, j: nat)
    requires
        i <= j,
    ensures
        spec_fib(i) <= spec_fib(j),
    decreases j,
{
    if i < j {
        lemma_fib_monotonic(i, (j - 1) as nat);
    }
}

/// The sum of two integers.
pub fn add(a: i32, b: i32) -> (r: i32)
    requires
        i32::MIN <= a + b <= i32::MAX,
    ensures
        r == a + b,
{
    a + b
}

/// The n-th Fibonacci number, computed natively.
pub fn fib(a: i32) -> (r: i32)
    requires
        0 <= a,
        spec_fib(a as nat) <= i32::MAX,
    ensures
        r == spec_fib(a as nat),
{
    fibonacci(a as u32) as i32
}

/// The n-th Fibonacci number by the doubly recursive definition.
pub fn fibonacci(n: u32) -> (r: u32)
    requires
        spec_fib(n as nat) <= u32::MAX,
    ensures
        r == spec_fib(n as nat),
    decreases n,
{
    if n < 2 {
        return n;
    }
    proof {
        lemma_fib_monotonic((n - 1) as nat, n as nat);
        lemma_fib_monotonic((n - 2) as nat, n as nat);
    }
    fibonacci(n - 1) + fibonacci(n - 2)
}

/// The n-th Fibonacci number, computed by the machine running the doubly recursive
/// bytecode.
pub fn recursive_fib(n: u32) -> (r: u32)
    requires
        spec_fib(n as nat) <= u32::MAX,
        spec_fib(n as nat) <= isize::MAX,
    ensures
        r == spec_fib(n as nat),
{
    let func = Function {
        local_count: RegisterCounts { ints: 9, bools: 1, funcs: 2 },
        code: vec![
            // if n < 2
            OpCode::IntConstantLoad { index: 0, target: 1 },
            OpCode::IntLess(0, 1, 0),
            OpCode::JumpIfFalse { condition: 0, target: 4 },
            // then return n
            OpCode::ReturnValue { index: 0 },
            // fib(n - 1)
            OpCode::IntConstantLoad { index: 1, target: 2 },
            OpCode::IntSub(0, 2, 3),
            OpCode::GlobalFuncLoad { index: 0, result: 0 },
            OpCode::Call {
                func_index: 0,
                arguments: vec![Argument { typ: RegisterType::Int, index: 3 }],
                result: 4,
            },
            // fib(n - 2)
            OpCode::IntConstantLoad { index: 2, target: 5 },
            OpCode::IntSub(0, 5, 6),
            OpCode::GlobalFuncLoad { index: 0, result: 1 },
            OpCode::Call {
                func_index: 1,
                arguments: vec![Argument { typ: RegisterType::Int, index: 6 }],
                result: 7,
            },
            // return the sum
            OpCode::IntAdd(4, 7, 8),
            OpCode::ReturnValue { index: 8 },
        ],
    };
    let mut vm = VM {
        constants: vec![IntValue { value: 2 }, IntValue { value: 1 }, IntValue { value: 2 }],
        call_stack: Vec::new(),
        globals: vec![FunctionValue { function: &func }],
        current_index: 0,
        return_value: IntValue { value: 0 },
    };
    proof {
        if n >= 5 {
            lemma_fib_at_least(n as nat);
        }
    }
    let argument = IntValue { value: n as isize };
    proof {
        let pools = vm.pools();
        let entry = entry_state(vm@, &func, argument);
        let code = func.code@;
        assert(func.local_count == RegisterCounts { ints: 9, bools: 1, funcs: 2 });
        assert(code[7]->arguments@ == seq![Argument { typ: RegisterType::Int, index: 3 }]);
        assert(code[11]->arguments@ == seq![Argument { typ: RegisterType::Int, index: 6 }]);
        assert(is_fib_function(&func));
        assert(is_fib_pools(pools, &func));
        lemma_fib_frame(pools, &func, entry, n as nat);
        lemma_fib_steps_closed(n as nat);
        if n >= 1 {
            lemma_fib_monotonic((n - 1) as nat, n as nat);
            assert(spec_fib(n as nat + 1) == spec_fib(n as nat) + spec_fib((n - 1) as nat));
        }
        assert(fib_steps(n as nat) <= step_budget());
        lemma_run_after_steps(pools, entry, fib_steps(n as nat), step_budget());
    }
    let result = vm.invoke(&func, argument);
    result.unwrap().value as u32
}

/// The n-th Fibonacci number, computed by the machine.
pub fn cdcfib(a: i32) -> (r: i32)
    requires
        0 <= a,
        spec_fib(a as nat) <= i32::MAX,
    ensures
        r == spec_fib(a as nat),
{
    recursive_fib(a as u32) as i32
}

} // verus!
