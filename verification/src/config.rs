//! The parameters of a search, and the constraints they must meet before any
//! evolutionary work begins.

use vstd::prelude::*;

verus! {

/// The per-value mutation probability, as the fraction
/// `numerator / denominator`.
#[derive(Clone, Copy, Debug, PartialEq, Eq)]
pub struct MutationRate {
    pub numerator: u32,
    pub denominator: u32,
}

impl MutationRate {
    /// The fraction denotes a probability: a number in `[0, 1]`.
    pub open spec fn is_probability(self) -> bool {
        0 < self.denominator && self.numerator <= self.denominator
    }
}

/// The parameters of a search.
#[derive(Clone, Copy, Debug, PartialEq, Eq)]
pub struct Config {
    /// Individuals per generation.
    pub population_size: usize,
    /// The generational budget.
    pub generations: usize,
    /// The probability with which mutation resamples each value of a program.
    pub mutation_rate: MutationRate,
    /// The shortest program that random construction produces.
    pub min_program_length: usize,
    /// The longest program that random construction produces.
    pub max_program_length: usize,
    /// The number of cells of the machine's memory.
    pub memory_size: i32,
    /// The number of instruction cycles a single run may take.
    pub max_execution_steps: usize,
}

/// The constraint that a rejected configuration violates.
#[derive(Clone, Copy, Debug, PartialEq, Eq)]
pub enum ConfigError {
    /// `population_size` is zero.
    EmptyPopulation,
    /// `generations` is zero.
    NoGenerations,
    /// `mutation_rate` is not a probability: its denominator is zero, or its
    /// numerator exceeds its denominator.
    MutationRateOutOfRange,
    /// `min_program_length` is zero.
    EmptyProgram,
    /// `min_program_length` exceeds `max_program_length`.
    ProgramLengthsInverted,
    /// `memory_size` is zero or negative.
    NoMemory,
    /// `memory_size` is below `max_program_length + 3`, so that the longest
    /// program would leave no room for a single instruction beyond itself.
    MemoryTooSmall,
    /// `max_execution_steps` is zero.
    NoExecutionSteps,
}

impl Config {
    /// The first constraint that this configuration violates, in the order in
    /// which [`ConfigError`] lists them, or `None` if it meets them all.
    pub open spec fn first_violation(self) -> Option<ConfigError> {
        if self.population_size == 0 {
            Some(ConfigError::EmptyPopulation)
        } else if self.generations == 0 {
            Some(ConfigError::NoGenerations)
        } else if !self.mutation_rate.is_probability() {
            Some(ConfigError::MutationRateOutOfRange)
        } else if self.min_program_length == 0 {
            Some(ConfigError::EmptyProgram)
        } else if self.min_program_length > self.max_program_length {
            Some(ConfigError::ProgramLengthsInverted)
        } else if self.memory_size <= 0 {
            Some(ConfigError::NoMemory)
        } else if self.memory_size < self.max_program_length + 3 {
            Some(ConfigError::MemoryTooSmall)
        } else if self.max_execution_steps == 0 {
            Some(ConfigError::NoExecutionSteps)
        } else {
            None
        }
    }

    /// The configuration meets every constraint.
    pub open spec fn is_valid(self) -> bool {
        &&& 0 < self.population_size
        &&& 0 < self.generations
        &&& self.mutation_rate.is_probability()
        &&& 0 < self.min_program_length <= self.max_program_length
        &&& self.max_program_length + 3 <= self.memory_size
        &&& 0 < self.max_execution_steps
    }

    /// A configuration is valid exactly when it violates no constraint.
    pub proof fn lemma_valid_iff_no_violation(self)
        ensures
            self.is_valid() <==> self.first_violation() is None,
    {
    }

    /// Checks the configuration, reporting the first violated constraint.
    pub fn validate(&self) -> (result: Result<(), ConfigError>)
        ensures
            result == match self.first_violation() {
                Some(error) => Err::<(), ConfigError>(error),
                None => Ok::<(), ConfigError>(()),
            },
            result is Ok <==> self.is_valid(),
    {
        if self.population_size == 0 {
            return Err(ConfigError::EmptyPopulation);
        }
        if self.generations == 0 {
            return Err(ConfigError::NoGenerations);
        }
        if self.mutation_rate.denominator == 0
            || self.mutation_rate.numerator > self.mutation_rate.denominator {
            return Err(ConfigError::MutationRateOutOfRange);
        }
        if self.min_program_length == 0 {
            return Err(ConfigError::EmptyProgram);
        }
        if self.min_program_length > self.max_program_length {
            return Err(ConfigError::ProgramLengthsInverted);
        }
        if self.memory_size <= 0 {
            return Err(ConfigError::NoMemory);
        }
        let cells: usize = self.memory_size as usize;
        if cells < 3 || self.max_program_length > cells - 3 {
            return Err(ConfigError::MemoryTooSmall);
        }
        if self.max_execution_steps == 0 {
            return Err(ConfigError::NoExecutionSteps);
        }
        Ok(())
    }
}

} // verus!
