use runtime::bbq::Function;
use runtime::opcodes::{Argument, OpCode};
use runtime::registers::{RegisterCounts, RegisterType};
use runtime::semantics::VmError;
use runtime::values::{BoolValue, FunctionValue, IntValue};
use runtime::vm::{CallFrame, Registers, VM};

fn counts(ints: usize, bools: usize, funcs: usize) -> RegisterCounts {
    RegisterCounts { ints, bools, funcs }
}

fn ival(value: isize) -> IntValue {
    IntValue { value }
}

fn machine<'a>(constants: &[isize], globals: &[&'a Function]) -> VM<'a> {
    VM {
        constants: constants.iter().map(|c| ival(*c)).collect(),
        call_stack: vec![],
        globals: globals.iter().map(|f| FunctionValue { function: *f }).collect(),
        current_index: 0,
        return_value: ival(0),
    }
}

fn invoke(constants: &[isize], globals: &[&Function], f: &Function, n: isize) -> Result<isize, VmError> {
    let mut vm = machine(constants, globals);
    vm.invoke(f, ival(n)).map(|v| v.value)
}

fn recursive_fib_function() -> Function {
    Function {
        local_count: counts(9, 1, 2),
        code: vec![
            OpCode::IntConstantLoad { index: 0, target: 1 },
            OpCode::IntLess(0, 1, 0),
            OpCode::JumpIfFalse { condition: 0, target: 4 },
            OpCode::ReturnValue { index: 0 },
            OpCode::IntConstantLoad { index: 1, target: 2 },
            OpCode::IntSub(0, 2, 3),
            OpCode::GlobalFuncLoad { index: 0, result: 0 },
            OpCode::Call { func_index: 0, arguments: vec![Argument { typ: RegisterType::Int, index: 3 }], result: 4 },
            OpCode::IntConstantLoad { index: 2, target: 5 },
            OpCode::IntSub(0, 5, 6),
            OpCode::GlobalFuncLoad { index: 0, result: 1 },
            OpCode::Call { func_index: 1, arguments: vec![Argument { typ: RegisterType::Int, index: 6 }], result: 7 },
            OpCode::IntAdd(4, 7, 8),
            OpCode::ReturnValue { index: 8 },
        ],
    }
}

/// a, b = 0, 1; repeat n times: a, b = b, a + b; return a.
fn iterative_fib_function() -> Function {
    Function {
        local_count: counts(11, 1, 0),
        code: vec![
            OpCode::IntConstantLoad { index: 0, target: 1 },
            OpCode::IntConstantLoad { index: 1, target: 2 },
            OpCode::IntConstantLoad { index: 0, target: 3 },
            OpCode::IntConstantLoad { index: 1, target: 4 },
            OpCode::IntLess(3, 0, 0),
            OpCode::JumpIfFalse { condition: 0, target: 11 },
            OpCode::IntAdd(1, 2, 5),
            OpCode::IntMove { from: 2, to: 1 },
            OpCode::IntMove { from: 5, to: 2 },
            OpCode::IntAdd(3, 4, 3),
            OpCode::Jump { target: 4 },
            OpCode::ReturnValue { index: 1 },
        ],
    }
}

#[test]
fn recursive_and_iterative_fib_agree() {
    let rec = recursive_fib_function();
    let iter = iterative_fib_function();
    for n in 0..=20 {
        let a = invoke(&[2, 1, 2], &[&rec], &rec, n).unwrap();
        let b = invoke(&[0, 1], &[], &iter, n).unwrap();
        assert_eq!(a, b, "n = {}", n);
    }
    assert_eq!(invoke(&[0, 1], &[], &iter, 20), Ok(6765));
}

#[test]
fn identity_returns_its_argument() {
    let f = Function { local_count: counts(1, 0, 0), code: vec![OpCode::ReturnValue { index: 0 }] };
    for n in [0, 1, -1, 42, isize::MAX, isize::MIN] {
        assert_eq!(invoke(&[], &[], &f, n), Ok(n));
    }
}

#[test]
fn constant_return() {
    let f = Function {
        local_count: counts(2, 0, 0),
        code: vec![OpCode::IntConstantLoad { index: 0, target: 1 }, OpCode::ReturnValue { index: 1 }],
    };
    assert_eq!(invoke(&[42], &[], &f, 0), Ok(42));
}

#[test]
fn conditional_on_less_than_five() {
    let f = Function {
        local_count: counts(3, 1, 0),
        code: vec![
            OpCode::IntConstantLoad { index: 0, target: 1 },
            OpCode::IntLess(0, 1, 0),
            OpCode::IntConstantLoad { index: 2, target: 2 },
            OpCode::JumpIfFalse { condition: 0, target: 5 },
            OpCode::IntConstantLoad { index: 1, target: 2 },
            OpCode::ReturnValue { index: 2 },
        ],
    };
    assert_eq!(invoke(&[5, 1, 0], &[], &f, 4), Ok(1));
    assert_eq!(invoke(&[5, 1, 0], &[], &f, 5), Ok(0));
}

fn subtract_function() -> Function {
    Function {
        local_count: counts(3, 0, 0),
        code: vec![OpCode::IntSub(0, 1, 2), OpCode::ReturnValue { index: 2 }],
    }
}

/// Passes int registers `first` and `second` (holding n and 10) to the global 0.
fn routing_caller(first: usize, second: usize) -> Function {
    Function {
        local_count: counts(7, 0, 1),
        code: vec![
            OpCode::IntMove { from: 0, to: 3 },
            OpCode::IntConstantLoad { index: 0, target: 5 },
            OpCode::GlobalFuncLoad { index: 0, result: 0 },
            OpCode::Call {
                func_index: 0,
                arguments: vec![
                    Argument { typ: RegisterType::Int, index: first },
                    Argument { typ: RegisterType::Int, index: second },
                ],
                result: 6,
            },
            OpCode::ReturnValue { index: 6 },
        ],
    }
}

#[test]
fn arguments_land_in_order() {
    let sub = subtract_function();
    let caller = routing_caller(3, 5);
    assert_eq!(invoke(&[10], &[&sub], &caller, 50), Ok(40));
    let swapped = routing_caller(5, 3);
    assert_eq!(invoke(&[10], &[&sub], &swapped, 50), Ok(-40));
}

#[test]
fn arguments_packed_per_kind() {
    // The callee returns its int argument 1 if its bool argument 0 is false, else int argument 0.
    let callee = Function {
        local_count: counts(2, 1, 0),
        code: vec![
            OpCode::JumpIfFalse { condition: 0, target: 2 },
            OpCode::ReturnValue { index: 0 },
            OpCode::ReturnValue { index: 1 },
        ],
    };
    let caller = |flag: OpCode| Function {
        local_count: counts(3, 2, 1),
        code: vec![
            OpCode::IntConstantLoad { index: 0, target: 1 },
            OpCode::IntConstantLoad { index: 1, target: 2 },
            flag,
            OpCode::GlobalFuncLoad { index: 0, result: 0 },
            OpCode::Call {
                func_index: 0,
                arguments: vec![
                    Argument { typ: RegisterType::Int, index: 1 },
                    Argument { typ: RegisterType::Bool, index: 1 },
                    Argument { typ: RegisterType::Int, index: 2 },
                ],
                result: 0,
            },
            OpCode::ReturnValue { index: 0 },
        ],
    };
    let with_true = caller(OpCode::True { index: 1 });
    let with_false = caller(OpCode::False { index: 1 });
    assert_eq!(invoke(&[111, 222], &[&callee], &with_true, 0), Ok(111));
    assert_eq!(invoke(&[111, 222], &[&callee], &with_false, 0), Ok(222));
}

#[test]
fn function_arguments_are_passed() {
    // The callee calls the function handed to it in func register 0 on its int argument.
    let double = Function {
        local_count: counts(2, 0, 0),
        code: vec![OpCode::IntAdd(0, 0, 1), OpCode::ReturnValue { index: 1 }],
    };
    let apply = Function {
        local_count: counts(2, 0, 1),
        code: vec![
            OpCode::Call { func_index: 0, arguments: vec![Argument { typ: RegisterType::Int, index: 0 }], result: 1 },
            OpCode::ReturnValue { index: 1 },
        ],
    };
    let main = Function {
        local_count: counts(2, 0, 2),
        code: vec![
            OpCode::GlobalFuncLoad { index: 0, result: 0 },
            OpCode::GlobalFuncLoad { index: 1, result: 1 },
            OpCode::Call {
                func_index: 0,
                arguments: vec![
                    Argument { typ: RegisterType::Func, index: 1 },
                    Argument { typ: RegisterType::Int, index: 0 },
                ],
                result: 1,
            },
            OpCode::ReturnValue { index: 1 },
        ],
    };
    assert_eq!(invoke(&[], &[&apply, &double], &main, 21), Ok(42));
}

fn binary(op: OpCode, l: isize, r: isize) -> Result<isize, VmError> {
    let f = Function {
        local_count: counts(3, 1, 0),
        code: vec![
            OpCode::IntConstantLoad { index: 0, target: 0 },
            OpCode::IntConstantLoad { index: 1, target: 1 },
            op,
            OpCode::ReturnValue { index: 2 },
        ],
    };
    invoke(&[l, r], &[], &f, 0)
}

fn compare(op: OpCode, l: isize, r: isize) -> bool {
    // Returns 1 when the comparison holds, else 0.
    let f = Function {
        local_count: counts(4, 1, 0),
        code: vec![
            OpCode::IntConstantLoad { index: 0, target: 0 },
            OpCode::IntConstantLoad { index: 1, target: 1 },
            op,
            OpCode::IntConstantLoad { index: 2, target: 3 },
            OpCode::JumpIfFalse { condition: 0, target: 6 },
            OpCode::IntConstantLoad { index: 3, target: 3 },
            OpCode::ReturnValue { index: 3 },
        ],
    };
    invoke(&[l, r, 0, 1], &[], &f, 0).unwrap() == 1
}

#[test]
fn arithmetic_results() {
    assert_eq!(binary(OpCode::IntAdd(0, 1, 2), 7, 5), Ok(12));
    assert_eq!(binary(OpCode::IntSub(0, 1, 2), 7, 5), Ok(2));
    assert_eq!(binary(OpCode::IntMul(0, 1, 2), 7, -5), Ok(-35));
}

#[test]
fn arithmetic_wraps() {
    assert_eq!(binary(OpCode::IntAdd(0, 1, 2), isize::MAX, 1), Ok(isize::MIN));
    assert_eq!(binary(OpCode::IntSub(0, 1, 2), isize::MIN, 1), Ok(isize::MAX));
    assert_eq!(binary(OpCode::IntMul(0, 1, 2), isize::MAX, 2), Ok(-2));
}

#[test]
fn comparisons() {
    for (l, r) in [(1, 2), (2, 2), (3, 2), (-4, 4)] {
        assert_eq!(compare(OpCode::IntLess(0, 1, 0), l, r), l < r);
        assert_eq!(compare(OpCode::IntLessEqual(0, 1, 0), l, r), l <= r);
        assert_eq!(compare(OpCode::IntEqual(0, 1, 0), l, r), l == r);
        assert_eq!(compare(OpCode::IntGreaterEqual(0, 1, 0), l, r), l >= r);
        assert_eq!(compare(OpCode::IntGreater(0, 1, 0), l, r), l > r);
    }
}

#[test]
fn value_operations() {
    let a = ival(9);
    let b = ival(4);
    assert_eq!(a.add(&b), ival(13));
    assert_eq!(a.subtract(&b), ival(5));
    assert_eq!(a.multiply(&b), ival(36));
    assert_eq!(a.less(&b), BoolValue { value: false });
    assert_eq!(a.less_or_equal(&a), BoolValue { value: true });
    assert_eq!(a.equal(&b), BoolValue { value: false });
    assert_eq!(a.greater_or_equal(&b), BoolValue { value: true });
    assert_eq!(a.greater(&a), BoolValue { value: false });
}

#[test]
fn next_index_counts_per_kind() {
    let mut c = counts(0, 0, 0);
    assert_eq!(c.next_index(RegisterType::Int), 0);
    assert_eq!(c.next_index(RegisterType::Bool), 0);
    assert_eq!(c.next_index(RegisterType::Int), 1);
    assert_eq!(c.next_index(RegisterType::Func), 0);
    assert_eq!(c, counts(2, 1, 1));
}

#[test]
fn return_is_not_implemented() {
    let f = Function { local_count: counts(1, 0, 0), code: vec![OpCode::Return] };
    assert_eq!(invoke(&[], &[], &f, 0), Err(VmError::NotImplemented));
}

#[test]
fn register_out_of_range() {
    let f = Function {
        local_count: counts(1, 0, 0),
        code: vec![OpCode::IntMove { from: 0, to: 1 }, OpCode::ReturnValue { index: 0 }],
    };
    assert_eq!(invoke(&[], &[], &f, 0), Err(VmError::RegisterOutOfRange));
}

#[test]
fn function_without_int_registers() {
    let f = Function { local_count: counts(0, 0, 0), code: vec![] };
    let mut vm = machine(&[], &[]);
    assert_eq!(vm.invoke(&f, ival(1)), Err(VmError::RegisterOutOfRange));
    assert!(vm.call_stack.is_empty());
}

#[test]
fn constant_out_of_range() {
    let f = Function {
        local_count: counts(1, 0, 0),
        code: vec![OpCode::IntConstantLoad { index: 3, target: 0 }, OpCode::ReturnValue { index: 0 }],
    };
    assert_eq!(invoke(&[1, 2, 3], &[], &f, 0), Err(VmError::ConstantOutOfRange));
}

#[test]
fn global_out_of_range() {
    let f = Function {
        local_count: counts(1, 0, 1),
        code: vec![OpCode::GlobalFuncLoad { index: 0, result: 0 }, OpCode::ReturnValue { index: 0 }],
    };
    assert_eq!(invoke(&[], &[], &f, 0), Err(VmError::GlobalOutOfRange));
}

#[test]
fn call_on_empty_function_register() {
    let f = Function {
        local_count: counts(1, 0, 1),
        code: vec![OpCode::Call { func_index: 0, arguments: vec![], result: 0 }, OpCode::ReturnValue { index: 0 }],
    };
    assert_eq!(invoke(&[], &[], &f, 0), Err(VmError::EmptyFunctionRegister));
}

#[test]
fn too_many_arguments_for_callee() {
    let callee = Function { local_count: counts(1, 0, 0), code: vec![OpCode::ReturnValue { index: 0 }] };
    let f = Function {
        local_count: counts(2, 0, 1),
        code: vec![
            OpCode::GlobalFuncLoad { index: 0, result: 0 },
            OpCode::Call {
                func_index: 0,
                arguments: vec![
                    Argument { typ: RegisterType::Int, index: 0 },
                    Argument { typ: RegisterType::Int, index: 1 },
                ],
                result: 0,
            },
            OpCode::ReturnValue { index: 0 },
        ],
    };
    assert_eq!(invoke(&[], &[&callee], &f, 0), Err(VmError::RegisterOutOfRange));
}

#[test]
fn step_limit_stops_endless_loop() {
    let f = Function { local_count: counts(1, 0, 0), code: vec![OpCode::Jump { target: 0 }] };
    let mut vm = machine(&[], &[]);
    vm.call_stack.push(CallFrame::new(&f, Registers::new(&f), 0));
    assert_eq!(vm.run(1000), Err(VmError::StepLimitReached));
    assert_eq!(vm.call_stack.len(), 1);
}

#[test]
fn running_off_the_end_keeps_the_last_result() {
    let f = Function { local_count: counts(2, 0, 0), code: vec![OpCode::IntConstantLoad { index: 0, target: 1 }] };
    let mut vm = machine(&[5], &[]);
    vm.return_value = ival(7);
    assert_eq!(vm.invoke(&f, ival(1)), Ok(ival(7)));
    assert_eq!(vm.call_stack.len(), 1);
    assert_eq!(vm.call_stack[0].ip, 1);
    assert_eq!(vm.call_stack[0].locals.ints, vec![ival(1), ival(5)]);
}

#[test]
fn ip_advances_or_jumps() {
    let f = Function {
        local_count: counts(1, 1, 0),
        code: vec![
            OpCode::True { index: 0 },
            OpCode::JumpIfFalse { condition: 0, target: 5 },
            OpCode::False { index: 0 },
            OpCode::JumpIfFalse { condition: 0, target: 6 },
            OpCode::ReturnValue { index: 0 },
            OpCode::ReturnValue { index: 0 },
            OpCode::Jump { target: 4 },
        ],
    };
    let mut vm = machine(&[], &[]);
    vm.call_stack.push(CallFrame::new(&f, Registers::new(&f), 0));
    let mut ips = vec![];
    for _ in 0..5 {
        assert_eq!(vm.run(1), Err(VmError::StepLimitReached));
        ips.push(vm.call_stack[0].ip);
    }
    // True, JumpIfFalse not taken, False, JumpIfFalse taken, Jump.
    assert_eq!(ips, vec![1, 2, 3, 6, 4]);
}

#[test]
fn call_leaves_caller_registers_but_the_result() {
    let sub = subtract_function();
    let caller = routing_caller(3, 5);
    let mut vm = machine(&[10], &[&sub]);
    vm.call_stack.push(CallFrame::new(&caller, Registers::new(&caller), 0));
    vm.call_stack[0].locals.ints[0] = ival(50);
    // Everything up to and including the call.
    assert_eq!(vm.run(4), Err(VmError::StepLimitReached));
    assert_eq!(vm.call_stack.len(), 2);
    let before: Vec<IntValue> = vm.call_stack[0].locals.ints.clone();
    // The callee's two instructions.
    assert_eq!(vm.run(2), Err(VmError::StepLimitReached));
    assert_eq!(vm.call_stack.len(), 1);
    let after = &vm.call_stack[0].locals.ints;
    for i in 0..after.len() {
        if i == 6 {
            assert_eq!(after[i], ival(40));
        } else {
            assert_eq!(after[i], before[i]);
        }
    }
    assert_eq!(vm.call_stack[0].ip, 4);
}

#[test]
fn pools_unchanged_by_invoke() {
    let rec = recursive_fib_function();
    let mut vm = machine(&[2, 1, 2], &[&rec]);
    assert_eq!(vm.invoke(&rec, ival(12)), Ok(ival(144)));
    assert_eq!(vm.constants, vec![ival(2), ival(1), ival(2)]);
    assert_eq!(vm.globals.len(), 1);
    assert!(std::ptr::eq(vm.globals[0].function, &rec));
}

#[test]
fn invoking_twice_gives_the_same_result() {
    let rec = recursive_fib_function();
    let mut first = machine(&[2, 1, 2], &[&rec]);
    let mut second = machine(&[2, 1, 2], &[&rec]);
    let a = first.invoke(&rec, ival(15));
    let b = second.invoke(&rec, ival(15));
    assert_eq!(a, b);
    assert_eq!(a, Ok(ival(610)));
    assert_eq!(first.invoke(&rec, ival(15)), a);
}
