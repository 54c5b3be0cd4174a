use rand::rngs::StdRng;
use rand::SeedableRng;
use subleq_evolution::config::{Config, MutationRate};
use subleq_evolution::operators::{assemble, crossover};
use subleq_evolution::program::SUBLEQProgram;

fn settings(numerator: u32, denominator: u32) -> Config {
    Config {
        population_size: 8,
        generations: 4,
        mutation_rate: MutationRate { numerator, denominator },
        min_program_length: 1,
        max_program_length: 12,
        memory_size: 16,
        max_execution_steps: 8,
    }
}

fn program(code: &[i32]) -> SUBLEQProgram {
    SUBLEQProgram { code: code.to_vec() }
}

#[test]
fn assemble_splices_at_the_split() {
    let first = program(&[1, 2, 3]);
    let second = program(&[7, 8, 9, 10, 11]);
    let none = vec![];
    assert_eq!(assemble(&first, &second, 0, &none).code, vec![7, 8, 9]);
    assert_eq!(assemble(&first, &second, 1, &none).code, vec![1, 8, 9]);
    assert_eq!(assemble(&first, &second, 2, &none).code, vec![1, 2, 9]);
    assert_eq!(assemble(&first, &second, 3, &none).code, vec![1, 2, 3]);
}

#[test]
fn assemble_appends_the_tail_after_the_shorter_parent() {
    let first = program(&[1, 2, 3]);
    let second = program(&[7, 8, 9, 10, 11]);
    assert_eq!(assemble(&first, &second, 1, &vec![40]).code, vec![1, 8, 9, 40]);
    assert_eq!(assemble(&first, &second, 1, &vec![40, -41]).code, vec![1, 8, 9, 40, -41]);
    assert_eq!(assemble(&second, &first, 2, &vec![5, 6]).code, vec![7, 8, 3, 5, 6]);
    assert_eq!(assemble(&second, &first, 0, &vec![0, 0]).code, vec![1, 2, 3, 0, 0]);
}

#[test]
fn assemble_of_parents_of_one_length_takes_no_tail() {
    let first = program(&[1, 2]);
    let second = program(&[-1, -2]);
    assert_eq!(assemble(&first, &second, 1, &vec![]).code, vec![1, -2]);
    assert_eq!(assemble(&second, &first, 1, &vec![]).code, vec![-1, 2]);
}

#[test]
fn crossover_child_length_is_between_the_parents() {
    let config = settings(0, 1);
    let first = program(&[1, 2, 3]);
    let second = program(&[7, 8, 9, 10, 11, 12, 13]);
    let mut rng = StdRng::seed_from_u64(11);
    let mut seen = [false; 8];
    for _ in 0..400 {
        let child = crossover(&first, &second, &config, &mut rng);
        assert!(3 <= child.code.len() && child.code.len() <= 7);
        seen[child.code.len()] = true;
        let child = crossover(&second, &first, &config, &mut rng);
        assert!(3 <= child.code.len() && child.code.len() <= 7);
    }
    assert_eq!(seen, [false, false, false, true, true, true, true, true]);
}

#[test]
fn crossover_child_is_spliced_at_some_split() {
    let config = settings(0, 1);
    let first = program(&[1, 2, 3, 4]);
    let second = program(&[-5, -6, -7, -8, -9, -10]);
    let mut rng = StdRng::seed_from_u64(3);
    let mut seen = [false; 4];
    for _ in 0..400 {
        let child = crossover(&first, &second, &config, &mut rng).code;
        let split = (0..4usize).find(|&split| {
            child[..split] == first.code[..split] && child[split..4] == second.code[split..4]
        });
        let split = split.expect("the child is spliced from its parents");
        seen[split] = true;
        for value in &child[4..] {
            assert!(-16 <= *value && *value < 16);
        }
    }
    assert_eq!(seen, [true, true, true, true]);
}

#[test]
fn crossover_of_a_program_with_itself_returns_it() {
    let config = settings(0, 1);
    let only = program(&[4, -4, 9, 0, 15]);
    let mut rng = StdRng::seed_from_u64(5);
    for _ in 0..50 {
        assert_eq!(crossover(&only, &only, &config, &mut rng).code, only.code);
    }
}

#[test]
fn crossover_of_single_values_takes_the_second_parent() {
    let config = settings(0, 1);
    let mut rng = StdRng::seed_from_u64(5);
    for _ in 0..50 {
        let child = crossover(&program(&[1]), &program(&[2]), &config, &mut rng);
        assert_eq!(child.code, vec![2]);
    }
}

#[test]
fn resample_replaces_the_value_drawn_for() {
    let mut subject = program(&[10, 20, 30]);
    subject.resample_at(1, Some(-7));
    assert_eq!(subject.code, vec![10, -7, 30]);
    subject.resample_at(0, Some(i32::MIN));
    assert_eq!(subject.code, vec![i32::MIN, -7, 30]);
    subject.resample_at(2, Some(30));
    assert_eq!(subject.code, vec![i32::MIN, -7, 30]);
}

#[test]
fn resample_without_a_draw_changes_nothing() {
    let mut subject = program(&[10, 20, 30]);
    for position in 0..3 {
        subject.resample_at(position, None);
        assert_eq!(subject.code, vec![10, 20, 30]);
    }
}

#[test]
fn mutation_keeps_the_length() {
    let mut rng = StdRng::seed_from_u64(17);
    for (numerator, denominator) in [(0, 1), (1, 20), (1, 2), (1, 1)] {
        let config = settings(numerator, denominator);
        for length in [0usize, 1, 5, 12] {
            let mut subject = SUBLEQProgram::new(length, &config, &mut rng);
            for _ in 0..20 {
                subject.mutate(&config, &mut rng);
                assert_eq!(subject.code.len(), length);
            }
        }
    }
}

#[test]
fn mutation_at_rate_zero_changes_nothing() {
    let config = settings(0, 9);
    let mut rng = StdRng::seed_from_u64(23);
    let mut subject = program(&[1000, -1000, 3, 0]);
    for _ in 0..50 {
        subject.mutate(&config, &mut rng);
    }
    assert_eq!(subject.code, vec![1000, -1000, 3, 0]);
}

#[test]
fn mutation_at_rate_one_resamples_every_value() {
    let config = settings(9, 9);
    let mut rng = StdRng::seed_from_u64(29);
    for _ in 0..50 {
        let mut subject = program(&[1000, -1000, 2000, -2000, 16, -17]);
        subject.mutate(&config, &mut rng);
        for value in &subject.code {
            assert!(-16 <= *value && *value < 16);
        }
    }
}

#[test]
fn mutation_leaves_a_value_or_draws_it_from_the_range() {
    let config = settings(1, 2);
    let mut rng = StdRng::seed_from_u64(31);
    let start = vec![1000, -1000, 2000, -2000, 3000, -3000, 4000, -4000];
    let mut kept = 0;
    let mut drawn = 0;
    for _ in 0..50 {
        let mut subject = program(&start);
        subject.mutate(&config, &mut rng);
        for (after, before) in subject.code.iter().zip(&start) {
            if after == before {
                kept += 1;
            } else {
                assert!(-16 <= *after && *after < 16);
                drawn += 1;
            }
        }
    }
    assert!(kept > 0);
    assert!(drawn > 0);
}

#[test]
fn new_program_has_the_length_asked_for_and_values_in_range() {
    let config = settings(1, 20);
    let mut rng = StdRng::seed_from_u64(37);
    let mut least = i32::MAX;
    let mut most = i32::MIN;
    for length in [0usize, 1, 6, 64, 500] {
        let subject = SUBLEQProgram::new(length, &config, &mut rng);
        assert_eq!(subject.code.len(), length);
        for value in &subject.code {
            assert!(-16 <= *value && *value < 16);
            least = least.min(*value);
            most = most.max(*value);
        }
    }
    assert_eq!((least, most), (-16, 15));
}

#[test]
fn duplicate_is_an_equal_program() {
    let subject = program(&[3, -1, 0, i32::MIN, i32::MAX]);
    assert_eq!(subject.duplicate().code, subject.code);
    assert_eq!(program(&[]).duplicate().code, Vec::<i32>::new());
}
