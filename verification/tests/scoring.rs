use subleq_evolution::config::{Config, MutationRate};
use subleq_evolution::program::SUBLEQProgram;
use subleq_evolution::scan::{holds_copy, longest_match, match_length_at};

fn machine(memory_size: i32, max_execution_steps: usize) -> Config {
    Config {
        population_size: 1,
        generations: 1,
        mutation_rate: MutationRate { numerator: 0, denominator: 1 },
        min_program_length: 1,
        max_program_length: 6,
        memory_size,
        max_execution_steps,
    }
}

fn program(code: &[i32]) -> SUBLEQProgram {
    SUBLEQProgram { code: code.to_vec() }
}

#[test]
fn match_length_stops_at_the_first_mismatch() {
    let code = vec![1, 2, 3];
    let memory = vec![9, 1, 2, 4, 1, 2, 3];
    assert_eq!(match_length_at(&code, &memory, 0), 0);
    assert_eq!(match_length_at(&code, &memory, 1), 2);
    assert_eq!(match_length_at(&code, &memory, 2), 0);
    assert_eq!(match_length_at(&code, &memory, 4), 3);
}

#[test]
fn match_length_does_not_count_past_a_mismatch() {
    // Positions 0 and 2 agree, position 1 does not: only the prefix counts.
    assert_eq!(match_length_at(&vec![1, 2, 3], &vec![1, 0, 3], 0), 1);
}

#[test]
fn match_length_of_an_empty_program_is_zero() {
    assert_eq!(match_length_at(&vec![], &vec![1, 2], 2), 0);
}

#[test]
fn scan_skips_the_load_region() {
    let code = vec![7];
    assert_eq!(longest_match(&code, &vec![7, 0, 0, 0]), 0);
    assert!(!holds_copy(&code, &vec![7, 0, 0, 0]));
}

#[test]
fn scan_includes_the_last_window_that_fits() {
    let code = vec![7];
    assert_eq!(longest_match(&code, &vec![7, 0, 0, 7]), 1);
    assert!(holds_copy(&code, &vec![7, 0, 0, 7]));
    assert_eq!(longest_match(&code, &vec![7, 0, 7, 0]), 1);
    assert!(holds_copy(&code, &vec![7, 0, 7, 0]));
    assert!(holds_copy(&code, &vec![7, 7, 0, 0]));
    let code = vec![1, 2];
    assert_eq!(longest_match(&code, &vec![1, 2, 0, 0, 0, 0, 1, 2]), 2);
    assert!(holds_copy(&code, &vec![1, 2, 0, 0, 0, 0, 1, 2]));
    assert_eq!(longest_match(&code, &vec![1, 2, 0, 0, 0, 0, 1, 3]), 1);
    assert!(!holds_copy(&code, &vec![1, 2, 0, 0, 0, 0, 1, 3]));
    // A window that starts at the last cell but one does not fit.
    assert_eq!(longest_match(&code, &vec![1, 2, 0, 0, 0, 0, 0, 1]), 0);
}

#[test]
fn scan_takes_the_best_of_all_windows() {
    let code = vec![1, 2];
    let memory = vec![1, 2, 0, 1, 9, 1, 1, 0];
    assert_eq!(longest_match(&code, &memory), 1);
    assert!(!holds_copy(&code, &memory));
    let memory = vec![1, 2, 1, 9, 1, 2, 0, 0];
    assert_eq!(longest_match(&code, &memory), 2);
    assert!(holds_copy(&code, &memory));
}

#[test]
fn scan_of_a_program_too_long_for_a_second_copy_finds_nothing() {
    let code = vec![0, 0, 0];
    assert_eq!(longest_match(&code, &vec![0, 0, 0]), 0);
    assert!(!holds_copy(&code, &vec![0, 0, 0]));
    assert_eq!(longest_match(&code, &vec![0, 0, 0, 0, 0]), 0);
    assert!(!holds_copy(&code, &vec![0, 0, 0, 0, 0]));
}

#[test]
fn scan_finds_a_copy_that_fills_the_rest_of_the_memory() {
    let code = vec![0, 0, 0];
    assert_eq!(longest_match(&code, &vec![0, 0, 0, 0, 0, 0]), 3);
    assert!(holds_copy(&code, &vec![0, 0, 0, 0, 0, 0]));
    assert_eq!(longest_match(&code, &vec![0, 0, 0, 0, 0, 0, 0]), 3);
    assert!(holds_copy(&code, &vec![0, 0, 0, 0, 0, 0, 0]));
}

#[test]
fn scan_of_a_program_as_long_as_the_memory() {
    assert_eq!(longest_match(&vec![1, 2], &vec![1, 2]), 0);
    assert!(!holds_copy(&vec![1, 2], &vec![1, 2]));
}

#[test]
fn empty_program_is_found_in_any_memory() {
    assert!(holds_copy(&vec![], &vec![5]));
    assert!(holds_copy(&vec![], &vec![]));
    assert_eq!(longest_match(&vec![], &vec![5]), 0);
}

#[test]
fn full_copy_scores_by_the_steps_taken() {
    let zeros = program(&[0, 0, 0, 0, 0, 0]);
    assert_eq!(zeros.fitness(&machine(256, 1000)), 1);
    assert_eq!(zeros.fitness(&machine(256, 10)), 100);
    assert_eq!(zeros.fitness(&machine(256, 3)), 333);
    assert_eq!(zeros.fitness(&machine(256, 1001)), 0);
    assert_eq!(program(&[0]).fitness(&machine(8, 7)), 142);
}

#[test]
fn full_copy_after_no_step_scores_as_after_one() {
    assert_eq!(program(&[0]).fitness(&machine(8, 0)), 1000);
    assert_eq!(program(&[0]).fitness(&machine(8, 1)), 1000);
    assert_eq!(program(&[0, 0]).fitness(&machine(8, 0)), 1000);
}

#[test]
fn partial_copy_scores_its_length() {
    assert_eq!(program(&[1, 1, 0]).fitness(&machine(256, 1000)), 0);
    // Left behind: [0, 5, 0, ...]; every scanned window starts with 0, none holds 5.
    assert_eq!(program(&[0, 5]).fitness(&machine(8, 10)), 1);
    // Halts after one step, leaving [0, 0, 6, 0, ...]: two of three values are found.
    assert_eq!(program(&[0, 0, 6]).fitness(&machine(8, 1000)), 2);
}

#[test]
fn program_without_room_for_a_copy_scores_nothing() {
    assert_eq!(program(&[0, 0, 0]).fitness(&machine(3, 4)), 0);
    assert_eq!(program(&[0, 0, 0]).fitness(&machine(5, 4)), 0);
    assert_eq!(program(&[0, 0, 0]).fitness(&machine(6, 4)), 250);
    assert_eq!(program(&[0, 0, 0]).fitness(&machine(7, 4)), 250);
}

#[test]
fn match_in_the_last_window_counts() {
    // One cycle stores -6 in cell 250 and halts; the window at 250 = 256 - 6
    // starts with the program's first value.
    let subject = program(&[-6, 5, 254, 0, 0, 6]);
    let config = machine(256, 1000);
    let (memory, steps) = subject.execute(&config);
    assert_eq!(steps, 1);
    assert_eq!(memory[250], -6);
    assert_eq!(subject.fitness(&config), 1);
    assert!(!subject.verify_replication(&config));
}

#[test]
fn copy_in_the_upper_half_of_the_memory_is_verified() {
    let subject = program(&[0; 128]);
    let config = machine(256, 1000);
    assert!(subject.verify_replication(&config));
    assert_eq!(subject.fitness(&config), 1);
    // One value more, and no second window fits.
    let subject = program(&[0; 129]);
    assert!(!subject.verify_replication(&config));
    assert_eq!(subject.fitness(&config), 0);
}

#[test]
fn replication_is_verified_by_exact_copies_only() {
    assert!(program(&[0, 0, 0, 0, 0, 0]).verify_replication(&machine(256, 1000)));
    assert!(program(&[0]).verify_replication(&machine(8, 7)));
    assert!(!program(&[1, 1, 0]).verify_replication(&machine(256, 1000)));
    assert!(!program(&[0, 5]).verify_replication(&machine(8, 10)));
    assert!(!program(&[0, 0, 6]).verify_replication(&machine(8, 1000)));
    assert!(!program(&[0, 0, 0]).verify_replication(&machine(5, 4)));
    assert!(program(&[0, 0, 0]).verify_replication(&machine(6, 4)));
    assert!(program(&[0, 0, 0]).verify_replication(&machine(7, 4)));
}

#[test]
fn verified_replication_means_a_full_match() {
    let codes: [&[i32]; 6] = [&[0], &[0, 0], &[0, 0, 0, 0, 0, 0], &[1, 1, 0], &[0, 5], &[0, 0, 6]];
    for code in codes {
        for memory_size in [8, 13, 64] {
            let config = machine(memory_size, 20);
            let subject = program(code);
            let (memory, _) = subject.execute(&config);
            let best = longest_match(&subject.code, &memory);
            let verified = subject.verify_replication(&config);
            if verified {
                assert_eq!(best, code.len());
            }
            assert_eq!(verified, best == code.len());
        }
    }
}
