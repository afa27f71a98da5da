use vstd::prelude::*;

verus! {

/// The three kinds of register a frame holds.
#[derive(Clone, Copy, Debug, PartialEq, Eq)]
pub enum RegisterType {
    Int,
    Bool,
    Func,
}

/// How many registers of each kind a function uses: the shape of its register bank.
#[derive(Clone, Copy, Debug, PartialEq, Eq)]
pub struct RegisterCounts {
    pub ints: usize,
    pub bools: usize,
    pub funcs: usize,
}

impl RegisterCounts {
    /// The count held for registers of kind `kind`.
    pub open spec fn count(self, kind: RegisterType) -> usize {
        match kind {
            RegisterType::Int => self.ints,
            RegisterType::Bool => self.bools,
            RegisterType::Func => self.funcs,
        }
    }

    /// Hands out the next free index of kind `register_type` and counts it as taken;
    /// the other kinds are left alone.
    pub fn next_index(&mut self, register_type: RegisterType) -> (index: usize)
        requires
            old(self).count(register_type) < usize::MAX,
        ensures
            index == old(self).count(register_type),
            final(self).count(register_type) == old(self).count(register_type) + 1,
            forall|k: RegisterType| k != register_type ==> final(self).count(k) == old(self).count(k),
    {
        let index: usize;
        match register_type {
            RegisterType::Int => {
                index = self.ints;
                self.ints = self.ints + 1;
            },
            RegisterType::Bool => {
                index = self.bools;
                self.bools = self.bools + 1;
            },
            RegisterType::Func => {
                index = self.funcs;
                self.funcs = self.funcs + 1;
            },
        }
        index
    }
}

} // verus!
