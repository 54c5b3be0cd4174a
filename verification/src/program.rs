//! Programs: the unit of evolution.

use rand::rngs::StdRng;
use vstd::prelude::*;

use crate::config::Config;
use crate::machine::{address, boot, execution, lemma_run_bounded, lemma_step_keeps_shape, Machine};
use crate::random::{draw_chance, draw_value};
use crate::scan::{best_match, holds_copy, longest_match, replicated, score};

verus! {

/// A program for the one-instruction machine: the integers that are laid out
/// at the bottom of memory before a run.
#[derive(Clone, Debug)]
pub struct SUBLEQProgram {
    pub code: Vec<i32>,
}

impl View for SUBLEQProgram {
    type V = Seq<i32>;

    open spec fn view(&self) -> Seq<i32> {
        self.code@
    }
}

/// Every value of `code` lies in `[-memory_size, memory_size)`, the range that
/// random construction and mutation draw from.
pub open spec fn values_in_range(code: Seq<i32>, memory_size: int) -> bool {
    forall|i: int| 0 <= i < code.len() ==> -memory_size <= #[trigger] code[i] < memory_size
}

impl SUBLEQProgram {
    /// The program is one that a search under `config` works on: its length is
    /// within the configured bounds and its values are in range.
    pub open spec fn well_formed(&self, config: &Config) -> bool {
        &&& config.min_program_length <= self@.len() <= config.max_program_length
        &&& values_in_range(self@, config.memory_size as int)
    }

    /// The program can be loaded into the memory that `config` describes.
    pub open spec fn loadable(&self, config: &Config) -> bool {
        0 < config.memory_size && self@.len() <= config.memory_size
    }

    /// The final memory image and the step count of running this program
    /// under `config`.
    pub open spec fn outcome(&self, config: &Config) -> (Seq<i32>, nat) {
        execution(self@, config.memory_size as int, config.max_execution_steps as nat)
    }

    /// The score of this program under `config`: its best match in the memory
    /// image that its own run leaves, weighed by [`score`].
    pub open spec fn fitness_value(&self, config: &Config) -> nat {
        score(best_match(self@, self.outcome(config).0), self@.len(), self.outcome(config).1)
    }

    /// This program is a self-replicator under `config`: its own run leaves an
    /// exact copy of it at a scanned offset.
    pub open spec fn replicates(&self, config: &Config) -> bool {
        replicated(self@, self.outcome(config).0)
    }

    /// Constructs a random program of `length` values, each drawn uniformly
    /// from `[-memory_size, memory_size)`.
    pub fn new(length: usize, config: &Config, rng: &mut StdRng) -> (program: Self)
        requires
            0 < config.memory_size,
        ensures
            program@.len() == length,
            values_in_range(program@, config.memory_size as int),
    {
        let cells: i32 = config.memory_size;
        let mut code: Vec<i32> = Vec::new();
        while code.len() < length
            invariant
                0 < cells,
                code@.len() <= length,
                values_in_range(code@, cells as int),
            decreases length - code@.len(),
        {
            let value = draw_value(rng, -cells, cells);
            code.push(value);
        }
        SUBLEQProgram { code }
    }

    /// Mutates the program in place: each value is, independently and with the
    /// configured probability, replaced by a fresh draw from
    /// `[-memory_size, memory_size)`. The length never changes. What a
    /// decision does to the program is [`Self::resample_at`].
    pub fn mutate(&mut self, config: &Config, rng: &mut StdRng)
        requires
            0 < config.memory_size,
            config.mutation_rate.is_probability(),
        ensures
            final(self)@.len() == old(self)@.len(),
            forall|i: int|
                0 <= i < old(self)@.len() ==> #[trigger] final(self)@[i] == old(self)@[i]
                    || -config.memory_size <= final(self)@[i] < config.memory_size,
            config.mutation_rate.numerator == 0 ==> final(self)@ == old(self)@,
            config.mutation_rate.numerator == config.mutation_rate.denominator
                ==> values_in_range(final(self)@, config.memory_size as int),
    {
        let cells: i32 = config.memory_size;
        let rate = config.mutation_rate;
        let length = self.code.len();
        let mut position: usize = 0;
        while position < length
            invariant
                0 < cells,
                cells == config.memory_size,
                rate == config.mutation_rate,
                rate.is_probability(),
                position <= length,
                self@.len() == length,
                old(self)@.len() == length,
                forall|i: int|
                    0 <= i < length ==> #[trigger] self@[i] == old(self)@[i] || -cells
                        <= self@[i] < cells,
                rate.numerator == 0 ==> self@ == old(self)@,
                rate.numerator == rate.denominator ==> forall|i: int|
                    0 <= i < position ==> -cells <= #[trigger] self@[i] < cells,
            decreases length - position,
        {
            let drawn = if draw_chance(rng, rate.numerator, rate.denominator) {
                Some(draw_value(rng, -cells, cells))
            } else {
                None
            };
            self.resample_at(position, drawn);
            position += 1;
        }
    }

    /// Applies the outcome of one mutation decision: where a value was drawn
    /// for `position`, it replaces the value there; where none was, the program
    /// stays as it is.
    pub fn resample_at(&mut self, position: usize, drawn: Option<i32>)
        requires
            position < old(self)@.len(),
        ensures
            final(self)@ == match drawn {
                Some(value) => old(self)@.update(position as int, value),
                None => old(self)@,
            },
    {
        match drawn {
            Some(value) => {
                self.code.set(position, value);
            },
            None => {},
        }
    }

    /// Copies the program.
    pub fn duplicate(&self) -> (copy: Self)
        ensures
            copy@ == self@,
    {
        SUBLEQProgram { code: self.code.clone() }
    }

    /// Runs the program on a fresh machine until it halts or the step budget is
    /// spent, and returns the final memory image with the number of cycles
    /// executed.
    pub fn execute(&self, config: &Config) -> (result: (Vec<i32>, usize))
        requires
            self.loadable(config),
        ensures
            (result.0@, result.1 as nat) == self.outcome(config),
            result.0@.len() == config.memory_size,
            result.1 <= config.max_execution_steps,
    {
        let cells: i32 = config.memory_size;
        let size: usize = cells as usize;
        let budget: usize = config.max_execution_steps;
        let ghost start = boot(self@, cells as int);

        let mut memory: Vec<i32> = vec![0i32; size];
        let mut loaded: usize = 0;
        while loaded < self.code.len()
            invariant
                loaded <= self.code.len() <= size,
                memory@.len() == size,
                forall|j: int| 0 <= j < loaded ==> memory@[j] == self.code@[j],
                forall|j: int| loaded <= j < size ==> memory@[j] == 0,
            decreases self.code.len() - loaded,
        {
            memory.set(loaded, self.code[loaded]);
            loaded += 1;
        }
        assert(memory@ =~= start.memory);

        let mut pc: usize = 0;
        let mut steps: usize = 0;
        while pc + 3 <= size && steps < budget
            invariant
                size == cells,
                0 < cells,
                memory@.len() == size,
                pc <= size,
                steps <= budget,
                (Machine { memory: memory@, pc: pc as int, steps: steps as nat }).run(budget as nat)
                    == start.run(budget as nat),
            decreases budget - steps,
        {
            let ghost before = Machine { memory: memory@, pc: pc as int, steps: steps as nat };
            proof {
                lemma_step_keeps_shape(before, budget as nat);
            }
            let target = address(memory[pc], cells);
            let source = address(memory[pc + 1], cells);
            let branch = address(memory[pc + 2], cells);
            let difference = memory[target].wrapping_sub(memory[source]);
            memory.set(target, difference);
            if difference <= 0 {
                pc = branch;
            } else {
                pc += 3;
            }
            steps += 1;
            assert((Machine { memory: memory@, pc: pc as int, steps: steps as nat })
                == before.step());
        }
        proof {
            lemma_run_bounded(start, budget as nat);
        }
        (memory, steps)
    }

    /// Scores the program: runs it once and measures how much of itself it has
    /// left beyond its load region. A full copy earns more the fewer cycles the
    /// run took; anything less earns the length of the longest prefix copied.
    pub fn fitness(&self, config: &Config) -> (result: usize)
        requires
            self.loadable(config),
            0 < self@.len(),
        ensures
            result == self.fitness_value(config),
    {
        let (memory, steps) = self.execute(config);
        let best = longest_match(&self.code, &memory);
        let length = self.code.len();
        if best == length {
            let cycles: usize = if steps == 0 {
                1
            } else {
                steps
            };
            assert(0 < length * cycles <= 0x8000_0000 * 0x1_0000_0000_0000_0000)
                by (nonlinear_arith)
                requires
                    0 < length <= 0x8000_0000,
                    0 < cycles <= 0x1_0000_0000_0000_0000,
            ;
            assert((1000 * best) / (length * cycles) <= 1000) by (nonlinear_arith)
                requires
                    best == length,
                    0 < length,
                    0 < cycles,
            ;
            let weighed: u128 = (1000 * (best as u128)) / ((length as u128) * (cycles as u128));
            weighed as usize
        } else {
            best
        }
    }

    /// Decides whether the program is a self-replicator: whether its run leaves
    /// an exact copy of it in some window beyond its load region.
    pub fn verify_replication(&self, config: &Config) -> (result: bool)
        requires
            self.loadable(config),
        ensures
            result == self.replicates(config),
    {
        let (memory, _) = self.execute(config);
        holds_copy(&self.code, &memory)
    }

    /// A program that passes [`Self::verify_replication`] has a best match of
    /// its whole length in the fitness scan.
    pub proof fn lemma_replication_is_full_match(&self, config: &Config)
        requires
            self.replicates(config),
        ensures
            best_match(self@, self.outcome(config).0) == self@.len(),
    {
        crate::scan::lemma_replicated_implies_full_match(self@, self.outcome(config).0);
    }
}

} // verus!
