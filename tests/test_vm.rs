use runtime::bbq::Function;
use runtime::opcodes::{Argument, OpCode};
use runtime::registers::{RegisterCounts, RegisterType};
use runtime::values::{FunctionValue, IntValue};
use runtime::vm::VM;

fn recursive_fib_function() -> Function {
    Function {
        local_count: RegisterCounts { ints: 9, bools: 1, funcs: 2 },
        code: vec![
            // if n < 2
            OpCode::IntConstantLoad { index: 0, target: 1 },
            OpCode::IntLess(0, 1, 0),
            OpCode::JumpIfFalse { condition: 0, target: 4 },
            // then return n
            OpCode::ReturnValue { index: 0 },
            // fib(n - 1)
            OpCode::IntConstantLoad { index: 1, target: 2 },
            OpCode::IntSub(0, 2, 3),
            OpCode::GlobalFuncLoad { index: 0, result: 0 },
            OpCode::Call {
                func_index: 0,
                arguments: vec![Argument { typ: RegisterType::Int, index: 3 }],
                result: 4,
            },
            // fib(n - 2)
            OpCode::IntConstantLoad { index: 2, target: 5 },
            OpCode::IntSub(0, 5, 6),
            OpCode::GlobalFuncLoad { index: 0, result: 1 },
            OpCode::Call {
                func_index: 1,
                arguments: vec![Argument { typ: RegisterType::Int, index: 6 }],
                result: 7,
            },
            // return sum
            OpCode::IntAdd(4, 7, 8),
            OpCode::ReturnValue { index: 8 },
        ],
    }
}

#[test]
fn test_vm() {
    let func = recursive_fib_function();

    let mut vm = VM {
        constants: vec![IntValue { value: 2 }, IntValue { value: 1 }, IntValue { value: 2 }],
        call_stack: vec![],
        globals: vec![FunctionValue { function: &func }],
        current_index: 0,
        return_value: IntValue { value: 0 },
    };

    let result = vm.invoke(&func, IntValue { value: 7 }).unwrap();

    assert_eq!(result.value, 13);
}

#[test]
fn recursive_fib_program_other_inputs() {
    let func = recursive_fib_function();
    for (n, expected) in [(14, 377), (0, 0), (1, 1), (2, 1), (10, 55)] {
        let mut vm = VM {
            constants: vec![IntValue { value: 2 }, IntValue { value: 1 }, IntValue { value: 2 }],
            call_stack: vec![],
            globals: vec![FunctionValue { function: &func }],
            current_index: 0,
            return_value: IntValue { value: 0 },
        };
        let result = vm.invoke(&func, IntValue { value: n }).unwrap();
        assert_eq!(result.value, expected, "fib({})", n);
        assert!(vm.call_stack.is_empty());
    }
}
