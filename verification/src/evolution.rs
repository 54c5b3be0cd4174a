//! The generational loop.
//!
//! One generation scores every program of the population, picks the fittest,
//! and either recognises it as a self-replicator or breeds a full replacement
//! population from parents drawn uniformly from the whole population.

use rand::rngs::StdRng;
use rayon::iter::{IntoParallelRefIterator, ParallelIterator};
use vstd::prelude::*;

use crate::config::{Config, ConfigError};
use crate::operators::{assembled, crossover, longer, shorter};
use crate::program::{values_in_range, SUBLEQProgram};
use crate::random::{draw_index, draw_length};

verus! {

/// A verified self-replicator, with what its run leaves behind.
#[derive(Clone, Debug)]
pub struct Replicator {
    /// The program.
    pub genome: SUBLEQProgram,
    /// The memory image after the program's run.
    pub final_memory: Vec<i32>,
    /// The number of cycles the run took.
    pub step_count: usize,
}

/// What a generation leads to.
#[derive(Clone, Debug)]
pub enum Progress {
    /// The fittest program of the generation is a self-replicator.
    Found(Replicator),
    /// It is not; the population that replaces this one.
    Bred(Vec<SUBLEQProgram>),
}

/// The record of one generation.
#[derive(Clone, Debug)]
pub struct Generation {
    /// The best score in the population.
    pub best_fitness: usize,
    /// What the generation leads to.
    pub progress: Progress,
}

/// How a search ends.
#[derive(Clone, Debug)]
pub enum Outcome {
    /// A self-replicator was found.
    Success(Replicator),
    /// The generational budget was spent without finding one.
    Exhausted,
}

/// The record of a search.
#[derive(Clone, Debug)]
pub struct Evolution {
    /// The best score of each generation that was evaluated, in order.
    pub best_fitness: Vec<usize>,
    /// How the search ended.
    pub outcome: Outcome,
}

/// Every program of the population is well-formed under `config`.
pub open spec fn all_well_formed(population: Seq<SUBLEQProgram>, config: &Config) -> bool {
    forall|i: int| 0 <= i < population.len() ==> (#[trigger] population[i]).well_formed(config)
}

/// `index` is the first position of the greatest score.
pub open spec fn is_first_best(scores: Seq<usize>, index: int) -> bool {
    &&& 0 <= index < scores.len()
    &&& forall|j: int| 0 <= j < scores.len() ==> scores[j] <= scores[index]
    &&& forall|j: int| 0 <= j < index ==> scores[j] < scores[index]
}

/// `index` is the position of the fittest program of the population: the first
/// one whose score no other exceeds.
pub open spec fn is_fittest(population: Seq<SUBLEQProgram>, config: &Config, index: int) -> bool {
    &&& 0 <= index < population.len()
    &&& forall|j: int|
        0 <= j < population.len() ==> (#[trigger] population[j]).fitness_value(config)
            <= population[index].fitness_value(config)
    &&& forall|j: int|
        0 <= j < index ==> (#[trigger] population[j]).fitness_value(config)
            < population[index].fitness_value(config)
}

/// `child` is what crossover and mutation make of the parents `first` and
/// `second`: its length lies between theirs, its values are in range, and
/// where the mutation rate is zero it is assembled from them at a split point
/// of the shorter parent, with a tail of values in range.
pub open spec fn bred_from(
    child: Seq<i32>,
    first: Seq<i32>,
    second: Seq<i32>,
    config: &Config,
) -> bool {
    &&& shorter(first, second) <= child.len() <= longer(first, second)
    &&& values_in_range(child, config.memory_size as int)
    &&& config.mutation_rate.numerator == 0 ==> exists|split: int, tail: Seq<i32>|
        {
            &&& 0 <= split < shorter(first, second)
            &&& values_in_range(tail, config.memory_size as int)
            &&& child == #[trigger] assembled(first, second, split, tail)
        }
}

/// `child` is bred from two programs of the population.
pub open spec fn descends_from(
    child: Seq<i32>,
    population: Seq<SUBLEQProgram>,
    config: &Config,
) -> bool {
    exists|i: int, j: int|
        0 <= i < population.len() && 0 <= j < population.len() && #[trigger] bred_from(
            child,
            population[i]@,
            population[j]@,
            config,
        )
}

/// `children` is a full replacement for `population`: as many programs as
/// `config` asks for, each well-formed and bred from two programs of
/// `population`.
pub open spec fn succeeds(
    children: Seq<SUBLEQProgram>,
    population: Seq<SUBLEQProgram>,
    config: &Config,
) -> bool {
    &&& children.len() == config.population_size
    &&& all_well_formed(children, config)
    &&& forall|k: int|
        0 <= k < children.len() ==> descends_from((#[trigger] children[k])@, population, config)
}

/// The fittest program of a population is unique: any two positions that
/// qualify are the same.
pub proof fn lemma_fittest_unique(
    population: Seq<SUBLEQProgram>,
    config: &Config,
    first: int,
    second: int,
)
    requires
        is_fittest(population, config, first),
        is_fittest(population, config, second),
    ensures
        first == second,
{
    if first < second {
        assert(population[first].fitness_value(config) < population[second].fitness_value(
            config,
        ));
        assert(population[second].fitness_value(config) <= population[first].fitness_value(
            config,
        ));
    } else if second < first {
        assert(population[second].fitness_value(config) < population[first].fitness_value(
            config,
        ));
        assert(population[first].fitness_value(config) <= population[second].fitness_value(
            config,
        ));
    }
}

/// Scores every program of the population, each on a worker of its own, with
/// rayon's `par_iter`, `map` and `collect`.
///
/// The contract is not proved. It rests on two things: collecting a parallel
/// iterator over a vector into a vector keeps the items in the order of the
/// source, so the score at each position is that of the program at the same
/// position; and the score itself is what [`SUBLEQProgram::fitness`] returns,
/// whose own contract is proved.
#[verifier::external_body]
fn score_in_parallel(population: &Vec<SUBLEQProgram>, config: &Config) -> (scores: Vec<usize>)
    requires
        forall|i: int|
            0 <= i < population@.len() ==> (#[trigger] population@[i]).loadable(config) && 0
                < population@[i]@.len(),
    ensures
        scores@.len() == population@.len(),
        forall|i: int|
            0 <= i < population@.len() ==> #[trigger] scores@[i] == population@[i].fitness_value(
                config,
            ),
{
    population.par_iter().map(|program| program.fitness(config)).collect()
}

/// Finds the first position of the greatest score.
pub fn best_index(scores: &Vec<usize>) -> (index: usize)
    requires
        0 < scores@.len(),
    ensures
        is_first_best(scores@, index as int),
{
    let mut best: usize = 0;
    let mut position: usize = 1;
    while position < scores.len()
        invariant
            0 <= best < position <= scores@.len(),
            forall|j: int| 0 <= j < position ==> scores@[j] <= scores@[best as int],
            forall|j: int| 0 <= j < best ==> scores@[j] < scores@[best as int],
        decreases scores@.len() - position,
    {
        if scores[position] > scores[best] {
            best = position;
        }
        position += 1;
    }
    best
}

/// Builds the first population: as many random programs as `config` asks for,
/// each of a length drawn uniformly from the configured bounds.
pub fn initial_population(config: &Config, rng: &mut StdRng) -> (population: Vec<SUBLEQProgram>)
    requires
        config.is_valid(),
    ensures
        population@.len() == config.population_size,
        all_well_formed(population@, config),
{
    let mut population: Vec<SUBLEQProgram> = Vec::new();
    while population.len() < config.population_size
        invariant
            config.is_valid(),
            population@.len() <= config.population_size,
            all_well_formed(population@, config),
        decreases config.population_size - population@.len(),
    {
        let length = draw_length(rng, config.min_program_length, config.max_program_length);
        let program = SUBLEQProgram::new(length, config, rng);
        population.push(program);
    }
    population
}

/// Breeds one child: crossover of the two parents, then mutation of the
/// child.
pub fn breed(
    first: &SUBLEQProgram,
    second: &SUBLEQProgram,
    config: &Config,
    rng: &mut StdRng,
) -> (child: SUBLEQProgram)
    requires
        config.is_valid(),
        first.well_formed(config),
        second.well_formed(config),
    ensures
        bred_from(child@, first@, second@, config),
        child.well_formed(config),
{
    let mut child = crossover(first, second, config, rng);
    child.mutate(config, rng);
    child
}

/// Breeds a full replacement population. The two parents of every child are
/// independent uniform draws, with replacement, over the whole population.
pub fn next_generation(
    population: &Vec<SUBLEQProgram>,
    config: &Config,
    rng: &mut StdRng,
) -> (children: Vec<SUBLEQProgram>)
    requires
        config.is_valid(),
        0 < population@.len(),
        all_well_formed(population@, config),
    ensures
        succeeds(children@, population@, config),
{
    let mut children: Vec<SUBLEQProgram> = Vec::new();
    while children.len() < config.population_size
        invariant
            config.is_valid(),
            0 < population@.len(),
            all_well_formed(population@, config),
            children@.len() <= config.population_size,
            all_well_formed(children@, config),
            forall|k: int|
                0 <= k < children@.len() ==> descends_from(
                    (#[trigger] children@[k])@,
                    population@,
                    config,
                ),
        decreases config.population_size - children@.len(),
    {
        let first = draw_index(rng, 0, population.len());
        let second = draw_index(rng, 0, population.len());
        let child = breed(&population[first], &population[second], config, rng);
        assert(bred_from(
            child@,
            population@[first as int]@,
            population@[second as int]@,
            config,
        ));
        children.push(child);
    }
    children
}

/// `score` is the best score in the population: that of its fittest program.
pub open spec fn scored(population: Seq<SUBLEQProgram>, config: &Config, score: usize) -> bool {
    exists|best: int| #[trigger]
        is_fittest(population, config, best) && population[best].fitness_value(config) == score
}

/// The fittest program of the population is a self-replicator.
pub open spec fn found(population: Seq<SUBLEQProgram>, config: &Config) -> bool {
    exists|best: int| #[trigger]
        is_fittest(population, config, best) && population[best].replicates(config)
}

/// `replicator` reports the fittest program of the population as a
/// self-replicator: the program replicates, and the report carries a copy of it
/// with the memory image and the step count of its run.
pub open spec fn reports(
    replicator: Replicator,
    population: Seq<SUBLEQProgram>,
    config: &Config,
) -> bool {
    exists|best: int|
        {
            &&& #[trigger] is_fittest(population, config, best)
            &&& population[best].replicates(config)
            &&& replicator.genome@ == population[best]@
            &&& (replicator.final_memory@, replicator.step_count as nat)
                == population[best].outcome(config)
        }
}

/// Whether the fittest program of a population replicates does not depend on
/// how the fittest is named: it holds of the one position that qualifies.
pub proof fn lemma_found_by_fittest(population: Seq<SUBLEQProgram>, config: &Config, best: int)
    requires
        is_fittest(population, config, best),
    ensures
        found(population, config) == population[best].replicates(config),
        forall|score: usize|
            scored(population, config, score) == (population[best].fitness_value(config)
                == score),
{
    if found(population, config) {
        let other = choose|other: int| #[trigger]
            is_fittest(population, config, other) && population[other].replicates(config);
        lemma_fittest_unique(population, config, best, other);
    }
    assert forall|score: usize| scored(population, config, score) implies population[best].fitness_value(
        config,
    ) == score by {
        let other = choose|other: int| #[trigger]
            is_fittest(population, config, other) && population[other].fitness_value(config)
                == score;
        lemma_fittest_unique(population, config, best, other);
    }
}

/// Runs one generation: scores the population, picks its fittest program, and
/// either reports it as a self-replicator, with the memory image and step count
/// of its run, or breeds the population that comes next.
pub fn run_generation(
    population: &Vec<SUBLEQProgram>,
    config: &Config,
    rng: &mut StdRng,
) -> (generation: Generation)
    requires
        config.is_valid(),
        0 < population@.len(),
        all_well_formed(population@, config),
    ensures
        scored(population@, config, generation.best_fitness),
        match generation.progress {
            Progress::Found(replicator) => reports(replicator, population@, config),
            Progress::Bred(children) => {
                &&& !found(population@, config)
                &&& succeeds(children@, population@, config)
            },
        },
{
    let scores = score_in_parallel(population, config);
    let best = best_index(&scores);
    let best_fitness = scores[best];
    let fittest = &population[best];
    proof {
        assert forall|j: int| 0 <= j < population@.len() implies (#[trigger] population@[j]).fitness_value(
            config,
        ) <= population@[best as int].fitness_value(config) by {
            assert(scores@[j] <= scores@[best as int]);
        }
        assert forall|j: int| 0 <= j < best implies (#[trigger] population@[j]).fitness_value(
            config,
        ) < population@[best as int].fitness_value(config) by {
            assert(scores@[j] < scores@[best as int]);
        }
        assert(is_fittest(population@, config, best as int));
        lemma_found_by_fittest(population@, config, best as int);
    }
    let progress = if fittest.verify_replication(config) {
        let (final_memory, step_count) = fittest.execute(config);
        Progress::Found(Replicator { genome: fittest.duplicate(), final_memory, step_count })
    } else {
        Progress::Bred(next_generation(population, config, rng))
    };
    Generation { best_fitness, progress }
}

/// The score on record for generation `g` is the best score in the population
/// of that generation.
pub open spec fn scored_at(
    lineage: Seq<Seq<SUBLEQProgram>>,
    scores: Seq<usize>,
    g: int,
    config: &Config,
) -> bool {
    scored(lineage[g], config, scores[g])
}

/// The population of generation `g` is a full replacement bred from the
/// population before it, whose fittest program did not replicate.
pub open spec fn bred_at(lineage: Seq<Seq<SUBLEQProgram>>, g: int, config: &Config) -> bool {
    &&& !found(lineage[g - 1], config)
    &&& succeeds(lineage[g], lineage[g - 1], config)
}

/// `lineage` is the sequence of populations that a search from `initial`
/// evaluated on its way to the record `evolution`.
///
/// The lineage starts with `initial` and holds one population for each score
/// on record, which is the best score in that population. Every population but
/// the first is a full replacement bred from the one before it, whose fittest
/// program did not replicate. A record of success reports the fittest program
/// of the last population; a record of exhaustion comes after as many
/// populations as the budget allows, and the fittest program of the last did
/// not replicate either.
pub open spec fn traces(
    lineage: Seq<Seq<SUBLEQProgram>>,
    initial: Seq<SUBLEQProgram>,
    evolution: &Evolution,
    config: &Config,
) -> bool {
    &&& 1 <= lineage.len() <= config.generations
    &&& lineage.len() == evolution.best_fitness@.len()
    &&& lineage[0] == initial
    &&& forall|g: int|
        0 <= g < lineage.len() ==> #[trigger] scored_at(
            lineage,
            evolution.best_fitness@,
            g,
            config,
        )
    &&& forall|g: int| 0 < g < lineage.len() ==> #[trigger] bred_at(lineage, g, config)
    &&& match evolution.outcome {
        Outcome::Success(replicator) => reports(replicator, lineage.last(), config),
        Outcome::Exhausted => {
            &&& lineage.len() == config.generations
            &&& !found(lineage.last(), config)
        },
    }
}

/// `evolution` is the record of a search from `initial`: some lineage of
/// populations leads from `initial` to it.
pub open spec fn searched(
    initial: Seq<SUBLEQProgram>,
    evolution: &Evolution,
    config: &Config,
) -> bool {
    exists|lineage: Seq<Seq<SUBLEQProgram>>| #[trigger] traces(lineage, initial, evolution, config)
}

/// Every population of a lineage that starts from a well-formed, non-empty
/// population is well-formed and non-empty.
pub proof fn lemma_lineage_well_formed(
    lineage: Seq<Seq<SUBLEQProgram>>,
    initial: Seq<SUBLEQProgram>,
    evolution: &Evolution,
    config: &Config,
    generation: int,
)
    requires
        config.is_valid(),
        0 < initial.len(),
        all_well_formed(initial, config),
        traces(lineage, initial, evolution, config),
        0 <= generation < lineage.len(),
    ensures
        0 < lineage[generation].len(),
        all_well_formed(lineage[generation], config),
{
    if generation > 0 {
        assert(bred_at(lineage, generation, config));
    }
}

/// What the record of a search says at a glance.
///
/// The search evaluated at least one generation and at most as many as the
/// budget allows. The first score on record is the best score in the initial
/// population, and the search succeeded in its first generation exactly if the
/// fittest program of the initial population replicates. If the search ended
/// in success, the program it surfaces is a well-formed self-replicator, the
/// memory image and step count are those of its run, and the last score on
/// record is its score. If it ended in exhaustion, it evaluated exactly as
/// many generations as the budget allows.
pub proof fn lemma_search_record(
    initial: Seq<SUBLEQProgram>,
    evolution: &Evolution,
    config: &Config,
)
    requires
        config.is_valid(),
        0 < initial.len(),
        all_well_formed(initial, config),
        searched(initial, evolution, config),
    ensures
        1 <= evolution.best_fitness@.len() <= config.generations,
        scored(initial, config, evolution.best_fitness@[0]),
        found(initial, config) <==> evolution.outcome is Success && evolution.best_fitness@.len()
            == 1,
        match evolution.outcome {
            Outcome::Success(replicator) => {
                &&& replicator.genome.well_formed(config)
                &&& replicator.genome.replicates(config)
                &&& (replicator.final_memory@, replicator.step_count as nat)
                    == replicator.genome.outcome(config)
                &&& evolution.best_fitness@.last() == replicator.genome.fitness_value(config)
            },
            Outcome::Exhausted => evolution.best_fitness@.len() == config.generations,
        },
{
    let lineage = choose|lineage: Seq<Seq<SUBLEQProgram>>| #[trigger]
        traces(lineage, initial, evolution, config);
    let last = lineage.last();
    let count = lineage.len() as int;
    assert(scored_at(lineage, evolution.best_fitness@, 0, config));
    assert(scored_at(lineage, evolution.best_fitness@, count - 1, config));
    lemma_lineage_well_formed(lineage, initial, evolution, config, count - 1);
    if count > 1 {
        assert(bred_at(lineage, 1, config));
    }
    match evolution.outcome {
        Outcome::Success(replicator) => {
            let best = choose|best: int|
                {
                    &&& #[trigger] is_fittest(last, config, best)
                    &&& last[best].replicates(config)
                    &&& replicator.genome@ == last[best]@
                    &&& (replicator.final_memory@, replicator.step_count as nat)
                        == last[best].outcome(config)
                };
            lemma_found_by_fittest(last, config, best);
            lemma_same_code_alike(&replicator.genome, &last[best], config);
        },
        Outcome::Exhausted => {},
    }
}

/// Runs the generational loop from a given population until a self-replicator
/// is found or the generational budget is spent.
pub fn evolve_from(population: Vec<SUBLEQProgram>, config: &Config, rng: &mut StdRng) -> (evolution:
    Evolution)
    requires
        config.is_valid(),
        0 < population@.len(),
        all_well_formed(population@, config),
    ensures
        searched(population@, &evolution, config),
{
    let ghost initial = population@;
    let ghost mut lineage: Seq<Seq<SUBLEQProgram>> = Seq::empty();
    let mut current = population;
    let mut best_fitness: Vec<usize> = Vec::new();
    let mut generation: usize = 0;
    while generation < config.generations
        invariant
            config.is_valid(),
            0 < current@.len(),
            all_well_formed(current@, config),
            generation <= config.generations,
            best_fitness@.len() == generation,
            lineage.len() == generation,
            initial == population@,
            generation == 0 ==> current@ == initial,
            generation > 0 ==> lineage[0] == initial,
            generation > 0 ==> !found(lineage.last(), config) && succeeds(
                current@,
                lineage.last(),
                config,
            ),
            forall|g: int|
                0 <= g < lineage.len() ==> #[trigger] scored_at(lineage, best_fitness@, g, config),
            forall|g: int| 0 < g < lineage.len() ==> #[trigger] bred_at(lineage, g, config),
        decreases config.generations - generation,
    {
        let ghost evaluated = current@;
        let ghost earlier = lineage;
        let ghost scores = best_fitness@;
        let record = run_generation(&current, config, rng);
        best_fitness.push(record.best_fitness);
        proof {
            lineage = earlier.push(evaluated);
            assert forall|g: int| 0 <= g < lineage.len() implies #[trigger] scored_at(
                lineage,
                best_fitness@,
                g,
                config,
            ) by {
                if g < earlier.len() {
                    assert(scored_at(earlier, scores, g, config));
                }
            }
            assert forall|g: int| 0 < g < lineage.len() implies #[trigger] bred_at(
                lineage,
                g,
                config,
            ) by {
                if g < earlier.len() {
                    assert(bred_at(earlier, g, config));
                }
            }
        }
        match record.progress {
            Progress::Found(replicator) => {
                let evolution = Evolution { best_fitness, outcome: Outcome::Success(replicator) };
                assert(traces(lineage, initial, &evolution, config));
                return evolution;
            },
            Progress::Bred(children) => {
                current = children;
            },
        }
        generation += 1;
    }
    let evolution = Evolution { best_fitness, outcome: Outcome::Exhausted };
    assert(traces(lineage, initial, &evolution, config));
    evolution
}

/// Two programs with the same code are alike in all that is said of them.
pub proof fn lemma_same_code_alike(
    first: &SUBLEQProgram,
    second: &SUBLEQProgram,
    config: &Config,
)
    requires
        first@ == second@,
    ensures
        first.well_formed(config) == second.well_formed(config),
        first.loadable(config) == second.loadable(config),
        first.outcome(config) == second.outcome(config),
        first.fitness_value(config) == second.fitness_value(config),
        first.replicates(config) == second.replicates(config),
{
}

/// Checks the configuration and, if it is valid, builds a random first
/// population and runs the generational loop on it. An invalid configuration
/// is rejected before any evolutionary work, with the first constraint it
/// violates.
pub fn evolve(config: &Config, rng: &mut StdRng) -> (result: Result<Evolution, ConfigError>)
    ensures
        match result {
            Ok(evolution) => {
                &&& config.is_valid()
                &&& exists|initial: Seq<SUBLEQProgram>|
                    {
                        &&& initial.len() == config.population_size
                        &&& all_well_formed(initial, config)
                        &&& #[trigger] searched(initial, &evolution, config)
                    }
            },
            Err(error) => config.first_violation() == Some(error),
        },
{
    match config.validate() {
        Err(error) => Err(error),
        Ok(_) => {
            let population = initial_population(config, rng);
            let ghost initial = population@;
            let evolution = evolve_from(population, config, rng);
            assert(searched(initial, &evolution, config));
            Ok(evolution)
        },
    }
}

} // verus!
