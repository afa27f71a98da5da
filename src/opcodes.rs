use vstd::prelude::*;

use crate::registers::RegisterType;
use crate::semantics::{outcome_is, VmError};
use crate::values::{bool_value, BoolValue, IntValue};
use crate::vm::VM;

verus! {

/// One argument of a call: the kind of register it is read from and its index there.
#[derive(Clone, Copy, Debug, PartialEq, Eq)]
pub struct Argument {
    pub typ: RegisterType,
    pub index: usize,
}

/// The register operands of a binary instruction.
#[derive(Clone, Copy, Debug, PartialEq, Eq)]
pub struct BinOpArgs {
    pub left_operand: usize,
    pub right_operand: usize,
    pub result: usize,
}

/// Integer operations with an integer result.
#[derive(Clone, Copy, Debug, PartialEq, Eq)]
pub enum IntBinOpType {
    Add,
    Sub,
    Mul,
}

/// Integer comparisons with a boolean result.
#[derive(Clone, Copy, Debug, PartialEq, Eq)]
pub enum CmpBinOpType {
    EQ,
    LT,
    LTE,
    GT,
    GTE,
}

/// One instruction. Register operands index the executing frame's banks; `index` of
/// `IntConstantLoad` and `GlobalFuncLoad` indexes the constant and global pools, and
/// jump targets are offsets into the executing function's code.
pub enum OpCode {
    Return,
    ReturnValue { index: usize },
    Jump { target: usize },
    JumpIfFalse { condition: usize, target: usize },
    IntIntBinOp { typ: IntBinOpType, left_operand: usize, right_operand: usize, result: usize },
    IntBoolBinOp { typ: CmpBinOpType, left_operand: usize, right_operand: usize, result: usize },
    IntMove { from: usize, to: usize },
    IntConstantLoad { index: usize, target: usize },
    GlobalFuncLoad { index: usize, result: usize },
    Call { func_index: usize, arguments: Vec<Argument>, result: usize },
    True { index: usize },
    False { index: usize },
}

impl IntBinOpType {
    /// What the operation gives on two integers.
    pub open spec fn spec_apply(self, lhs: IntValue, rhs: IntValue) -> IntValue {
        match self {
            IntBinOpType::Add => lhs.spec_add(rhs),
            IntBinOpType::Sub => lhs.spec_subtract(rhs),
            IntBinOpType::Mul => lhs.spec_multiply(rhs),
        }
    }

    pub fn apply(self, lhs: &IntValue, rhs: &IntValue) -> (r: IntValue)
        ensures
            r == self.spec_apply(*lhs, *rhs),
    {
        match self {
            IntBinOpType::Add => lhs.add(rhs),
            IntBinOpType::Sub => lhs.subtract(rhs),
            IntBinOpType::Mul => lhs.multiply(rhs),
        }
    }
}

impl CmpBinOpType {
    /// What the comparison gives on two integers.
    pub open spec fn spec_apply(self, lhs: IntValue, rhs: IntValue) -> BoolValue {
        bool_value(
            match self {
                CmpBinOpType::EQ => lhs.value == rhs.value,
                CmpBinOpType::LT => lhs.value < rhs.value,
                CmpBinOpType::LTE => lhs.value <= rhs.value,
                CmpBinOpType::GT => lhs.value > rhs.value,
                CmpBinOpType::GTE => lhs.value >= rhs.value,
            },
        )
    }

    pub fn apply(self, lhs: &IntValue, rhs: &IntValue) -> (r: BoolValue)
        ensures
            r == self.spec_apply(*lhs, *rhs),
    {
        match self {
            CmpBinOpType::EQ => lhs.equal(rhs),
            CmpBinOpType::LT => lhs.less(rhs),
            CmpBinOpType::LTE => lhs.less_or_equal(rhs),
            CmpBinOpType::GT => lhs.greater(rhs),
            CmpBinOpType::GTE => lhs.greater_or_equal(rhs),
        }
    }
}

#[allow(non_snake_case)]
impl OpCode {
    pub fn IntAdd(left_operand: usize, right_operand: usize, result: usize) -> (op: OpCode)
        ensures
            op == (OpCode::IntIntBinOp { typ: IntBinOpType::Add, left_operand, right_operand, result }),
    {
        OpCode::IntIntBinOp { typ: IntBinOpType::Add, left_operand, right_operand, result }
    }

    pub fn IntSub(left_operand: usize, right_operand: usize, result: usize) -> (op: OpCode)
        ensures
            op == (OpCode::IntIntBinOp { typ: IntBinOpType::Sub, left_operand, right_operand, result }),
    {
        OpCode::IntIntBinOp { typ: IntBinOpType::Sub, left_operand, right_operand, result }
    }

    pub fn IntMul(left_operand: usize, right_operand: usize, result: usize) -> (op: OpCode)
        ensures
            op == (OpCode::IntIntBinOp { typ: IntBinOpType::Mul, left_operand, right_operand, result }),
    {
        OpCode::IntIntBinOp { typ: IntBinOpType::Mul, left_operand, right_operand, result }
    }

    pub fn IntLess(left_operand: usize, right_operand: usize, result: usize) -> (op: OpCode)
        ensures
            op == (OpCode::IntBoolBinOp { typ: CmpBinOpType::LT, left_operand, right_operand, result }),
    {
        OpCode::IntBoolBinOp { typ: CmpBinOpType::LT, left_operand, right_operand, result }
    }

    pub fn IntLessEqual(left_operand: usize, right_operand: usize, result: usize) -> (op: OpCode)
        ensures
            op == (OpCode::IntBoolBinOp { typ: CmpBinOpType::LTE, left_operand, right_operand, result }),
    {
        OpCode::IntBoolBinOp { typ: CmpBinOpType::LTE, left_operand, right_operand, result }
    }

    pub fn IntEqual(left_operand: usize, right_operand: usize, result: usize) -> (op: OpCode)
        ensures
            op == (OpCode::IntBoolBinOp { typ: CmpBinOpType::EQ, left_operand, right_operand, result }),
    {
        OpCode::IntBoolBinOp { typ: CmpBinOpType::EQ, left_operand, right_operand, result }
    }

    pub fn IntGreater(left_operand: usize, right_operand: usize, result: usize) -> (op: OpCode)
        ensures
            op == (OpCode::IntBoolBinOp { typ: CmpBinOpType::GT, left_operand, right_operand, result }),
    {
        OpCode::IntBoolBinOp { typ: CmpBinOpType::GT, left_operand, right_operand, result }
    }

    pub fn IntGreaterEqual(left_operand: usize, right_operand: usize, result: usize) -> (op: OpCode)
        ensures
            op == (OpCode::IntBoolBinOp { typ: CmpBinOpType::GTE, left_operand, right_operand, result }),
    {
        OpCode::IntBoolBinOp { typ: CmpBinOpType::GTE, left_operand, right_operand, result }
    }
}

impl OpCode {
    /// Executes this instruction as the running frame of `vm`, whose `ip` is already
    /// past it. On an error `vm` is left as it was.
    pub fn execute<'a>(&self, vm: &mut VM<'a>) -> (r: Result<(), VmError>)
        requires
            old(vm).call_stack.len() > 0,
        ensures
            outcome_is(r, old(vm)@, final(vm)@, self.spec_execute(old(vm).pools(), old(vm)@)),
            final(vm).pools() == old(vm).pools(),
    {
        match self {
            OpCode::Return => Err(VmError::NotImplemented),
            OpCode::ReturnValue { index } => vm.opcode_return_value(*index),
            OpCode::Jump { target } => {
                vm.opcode_jump(*target);
                Ok(())
            },
            OpCode::JumpIfFalse { condition, target } => vm.opcode_jump_if_false(*condition, *target),
            OpCode::IntIntBinOp { typ, left_operand, right_operand, result } => vm.opcode_int_arithmetic(
                *typ,
                *left_operand,
                *right_operand,
                *result,
            ),
            OpCode::IntBoolBinOp { typ, left_operand, right_operand, result } => vm.opcode_int_compare(
                *typ,
                *left_operand,
                *right_operand,
                *result,
            ),
            OpCode::IntMove { from, to } => vm.opcode_int_move(*from, *to),
            OpCode::IntConstantLoad { index, target } => vm.opcode_int_const_load(*index, *target),
            OpCode::GlobalFuncLoad { index, result } => vm.opcode_global_func_load(*index, *result),
            OpCode::Call { func_index, arguments, result } => vm.opcode_call(*func_index, arguments.as_slice(), *result),
            OpCode::True { index } => vm.opcode_true(*index),
            OpCode::False { index } => vm.opcode_false(*index),
        }
    }
}

} // verus!
