//! The one-instruction machine, as a mathematical model.
//!
//! A memory image is a sequence of cells. One instruction cycle reads three
//! consecutive cells at the program counter as raw operands, reduces each to an
//! address, subtracts the second addressed cell from the first with wrap-around,
//! and branches to the third address if the result is not positive.

use vstd::arithmetic::div_mod::{
    lemma_fundamental_div_mod, lemma_mod_add_multiples_vanish, lemma_mod_bound,
    lemma_mod_multiples_vanish, lemma_mod_twice,
};
use vstd::prelude::*;

verus! {

/// The address that a raw operand denotes: its least non-negative residue
/// modulo the memory size.
pub open spec fn wrap_address(value: int, memory_size: int) -> int {
    value % memory_size
}

/// The remainder of a division that rounds towards zero: it carries the sign
/// of `value`.
pub open spec fn truncated_remainder(value: int, modulus: int) -> int {
    if value >= 0 {
        value % modulus
    } else {
        -((-value) % modulus)
    }
}

/// The address of any raw operand lies in `[0, memory_size)`, and equals
/// `((value mod memory_size) + memory_size) mod memory_size`, where the inner
/// `mod` is the remainder that carries the sign of `value`.
pub proof fn lemma_wrap_address(value: int, memory_size: int)
    requires
        0 < memory_size,
    ensures
        0 <= wrap_address(value, memory_size) < memory_size,
        wrap_address(value, memory_size) == (truncated_remainder(value, memory_size)
            + memory_size) % memory_size,
{
    let m = memory_size;
    lemma_mod_bound(value, m);
    if value >= 0 {
        lemma_mod_add_multiples_vanish(value % m, m);
        lemma_mod_twice(value, m);
    } else {
        // -value == m * q + r, hence value == m * (-q - 1) + (m - r).
        let q = (-value) / m;
        let r = (-value) % m;
        lemma_fundamental_div_mod(-value, m);
        assert(value == m * (-q - 1) + (m - r)) by (nonlinear_arith)
            requires
                -value == m * q + r,
        ;
        lemma_mod_multiples_vanish(-q - 1, m - r, m);
    }
}

/// Reduces a raw operand to an address.
pub fn address(value: i32, memory_size: i32) -> (result: usize)
    requires
        0 < memory_size,
    ensures
        result == wrap_address(value as int, memory_size as int),
        result < memory_size,
        result == (truncated_remainder(value as int, memory_size as int) + memory_size)
            % (memory_size as int),
{
    proof {
        lemma_wrap_address(value as int, memory_size as int);
    }
    let residue: i32 = value.checked_rem_euclid(memory_size).unwrap();
    residue as usize
}

/// A machine between two instruction cycles.
pub struct Machine {
    /// The memory image.
    pub memory: Seq<i32>,
    /// The program counter: the address of the next instruction.
    pub pc: int,
    /// The number of cycles executed so far.
    pub steps: nat,
}

/// The freshly loaded machine: `memory_size` zeroed cells overlaid with the
/// program at the low addresses, the program counter at zero.
pub open spec fn boot(code: Seq<i32>, memory_size: int) -> Machine {
    Machine {
        memory: Seq::new(
            memory_size as nat,
            |i: int| if i < code.len() { code[i] } else { 0i32 },
        ),
        pc: 0,
        steps: 0,
    }
}

impl Machine {
    /// The machine has a whole instruction before it and budget left to run it.
    pub open spec fn can_step(self, max_steps: nat) -> bool {
        self.pc + 3 <= self.memory.len() && self.steps < max_steps
    }

    /// The address of the cell that the next instruction subtracts from.
    pub open spec fn target(self) -> int {
        wrap_address(self.memory[self.pc] as int, self.memory.len() as int)
    }

    /// The address of the cell that the next instruction subtracts.
    pub open spec fn source(self) -> int {
        wrap_address(self.memory[self.pc + 1] as int, self.memory.len() as int)
    }

    /// The address that the next instruction branches to.
    pub open spec fn branch(self) -> int {
        wrap_address(self.memory[self.pc + 2] as int, self.memory.len() as int)
    }

    /// What the next instruction stores in the target cell.
    pub open spec fn difference(self) -> i32 {
        vstd::wrapping::i32_specs::wrapping_sub(
            self.memory[self.target()],
            self.memory[self.source()],
        )
    }

    /// The machine after one instruction cycle.
    pub open spec fn step(self) -> Machine {
        Machine {
            memory: self.memory.update(self.target(), self.difference()),
            pc: if self.difference() <= 0 {
                self.branch()
            } else {
                self.pc + 3
            },
            steps: self.steps + 1,
        }
    }

    /// The machine at halt: after as many cycles as it can take under the
    /// budget `max_steps`.
    pub open spec fn run(self, max_steps: nat) -> Machine
        decreases max_steps - self.steps,
    {
        if self.can_step(max_steps) {
            self.step().run(max_steps)
        } else {
            self
        }
    }
}

/// The outcome of executing `code` from a fresh machine of `memory_size`
/// cells under the budget `max_steps`: the final memory image and the number
/// of cycles executed.
pub open spec fn execution(code: Seq<i32>, memory_size: int, max_steps: nat) -> (Seq<i32>, nat) {
    let halted = boot(code, memory_size).run(max_steps);
    (halted.memory, halted.steps)
}

/// One instruction cycle keeps the memory's size and leaves the program
/// counter on an address of the memory, or just past its last cell.
pub proof fn lemma_step_keeps_shape(machine: Machine, max_steps: nat)
    requires
        0 <= machine.pc,
        machine.can_step(max_steps),
    ensures
        machine.step().memory.len() == machine.memory.len(),
        0 <= machine.step().pc <= machine.memory.len(),
        0 <= machine.target() < machine.memory.len(),
        0 <= machine.source() < machine.memory.len(),
        0 <= machine.branch() < machine.memory.len(),
{
    let size = machine.memory.len() as int;
    lemma_wrap_address(machine.memory[machine.pc] as int, size);
    lemma_wrap_address(machine.memory[machine.pc + 1] as int, size);
    lemma_wrap_address(machine.memory[machine.pc + 2] as int, size);
}

/// A run never changes the size of the memory and never exceeds its budget:
/// a machine that starts within the budget halts within it.
pub proof fn lemma_run_bounded(machine: Machine, max_steps: nat)
    requires
        0 <= machine.pc,
        machine.steps <= max_steps,
    ensures
        machine.run(max_steps).memory.len() == machine.memory.len(),
        machine.steps <= machine.run(max_steps).steps <= max_steps,
    decreases max_steps - machine.steps,
{
    if machine.can_step(max_steps) {
        lemma_step_keeps_shape(machine, max_steps);
        lemma_run_bounded(machine.step(), max_steps);
    }
}

/// The step count of every execution is at most the budget, and the final
/// memory image has exactly `memory_size` cells.
pub proof fn lemma_execution_bounded(code: Seq<i32>, memory_size: int, max_steps: nat)
    requires
        0 <= memory_size,
    ensures
        execution(code, memory_size, max_steps).1 <= max_steps,
        execution(code, memory_size, max_steps).0.len() == memory_size,
{
    lemma_run_bounded(boot(code, memory_size), max_steps);
}

/// Execution is a function of the program, the memory size and the budget:
/// any two outcomes of executing the same program under the same parameters
/// are identical, memory image and step count alike.
pub proof fn lemma_execution_deterministic(
    code: Seq<i32>,
    memory_size: int,
    max_steps: nat,
    first: (Seq<i32>, nat),
    second: (Seq<i32>, nat),
)
    requires
        first == execution(code, memory_size, max_steps),
        second == execution(code, memory_size, max_steps),
    ensures
        first.0 == second.0,
        first.1 == second.1,
{
}

} // verus!
