use tetris_core::genetic::{
    breed, cross_pairs, crossover, gen_next_generation, group_sizes, initial_population, mem_swap_range, mutate,
    mutation, random_individual, selection, training_turn, weight, GenoSeq, GenomeKind,
    Individual, CROSSOVER_RATE, LINE_COUNT_MAX, MUTATION_RATE, POPULATION, SELECTION_RATE,
};
use tetris_core::game::{Game, Position};

fn sample_population() -> Vec<Individual> {
    vec![
        Individual { geno: [1, 2, 3, 4], score: 5 },
        Individual { geno: [5, 6, 7, 8], score: 9 },
        Individual { geno: [9, 10, 11, 12], score: 1 },
        Individual { geno: [13, 14, 15, 16], score: 9 },
        Individual { geno: [17, 18, 19, 20], score: 3 },
    ]
}

#[test]
fn test_mem_swap_range() {
    let tests = [
        (0..=0, [[5, 2, 3, 4], [1, 6, 7, 8]]),
        (0..=1, [[5, 6, 3, 4], [1, 2, 7, 8]]),
        (1..=1, [[1, 6, 3, 4], [5, 2, 7, 8]]),
        (1..=2, [[1, 6, 7, 4], [5, 2, 3, 8]]),
        (1..=3, [[1, 6, 7, 8], [5, 2, 3, 4]]),
        (0..=3, [[5, 6, 7, 8], [1, 2, 3, 4]]),
    ];
    for (range, [geno1_expect, geno2_expect]) in tests {
        let mut geno1 = [1, 2, 3, 4];
        let mut geno2 = [5, 6, 7, 8];
        mem_swap_range(&mut geno1, &mut geno2, range);
        assert_eq!(geno1, geno1_expect);
        assert_eq!(geno2, geno2_expect);
    }
}

#[test]
fn mem_swap_range_empty_range_changes_nothing() {
    let mut a = [1, 2, 3, 4];
    let mut b = [5, 6, 7, 8];
    mem_swap_range(&mut a, &mut b, 3..=1);
    assert_eq!(a, [1, 2, 3, 4]);
    assert_eq!(b, [5, 6, 7, 8]);
}

#[test]
fn group_sizes_of_default_configuration() {
    assert_eq!(group_sizes(POPULATION, CROSSOVER_RATE, MUTATION_RATE, SELECTION_RATE), (7, 1, 2));
}

#[test]
fn group_sizes_always_sum_to_population() {
    for population in 0..200usize {
        for (c, m, s) in [(70, 10, 20), (50, 25, 25), (33, 33, 34), (0, 0, 100), (100, 0, 0)] {
            let (a, b, d) = group_sizes(population, c, m, s);
            assert_eq!(a + b + d, population);
            assert_eq!(a, population * c / 100);
            assert_eq!(b, population * m / 100);
        }
    }
    assert_eq!(group_sizes(3, 70, 10, 20), (2, 0, 1));
    assert_eq!(group_sizes(7, 50, 25, 25), (3, 1, 3));
}

#[test]
fn weight_reads_the_named_slot() {
    let g: GenoSeq = [10, 20, 30, 40];
    assert_eq!(weight(&g, GenomeKind::Line), 10);
    assert_eq!(weight(&g, GenomeKind::HeightMax), 20);
    assert_eq!(weight(&g, GenomeKind::HeightDiff), 30);
    assert_eq!(weight(&g, GenomeKind::DeadSpace), 40);
}

#[test]
fn mutate_replaces_one_slot() {
    assert_eq!(mutate([1, 2, 3, 4], 2, 99), [1, 2, 99, 4]);
    assert_eq!(mutate([1, 2, 3, 4], 0, 0), [0, 2, 3, 4]);
}

#[test]
fn selection_takes_the_highest_scores() {
    let inds = sample_population();
    let top2 = selection(&inds, 2);
    assert_eq!(top2.len(), 2);
    assert!(top2.contains(&[5, 6, 7, 8]));
    assert!(top2.contains(&[13, 14, 15, 16]));
    let top3 = selection(&inds, 3);
    assert_eq!(top3[2], [1, 2, 3, 4]);
    assert!(selection(&inds, 0).is_empty());
}

#[test]
fn crossover_children_come_from_pairs() {
    let inds = sample_population();
    let children = crossover(&inds, 4);
    assert_eq!(children.len(), 4);
    for c in &children {
        let from_pair = inds.iter().enumerate().any(|(i, a)| {
            inds.iter().enumerate().any(|(j, b)| {
                i != j
                    && (1..4).any(|cut| (0..4).all(|s| c[s] == if s < cut { a.geno[s] } else { b.geno[s] }))
            })
        });
        let unpaired = inds.iter().any(|a| a.geno == *c);
        assert!(from_pair || unpaired);
    }
    let unpaired = children.iter().filter(|c| inds.iter().any(|a| a.geno == **c)).count();
    assert!(unpaired <= 1);
}

#[test]
fn cross_pairs_cuts_each_pair_once() {
    let parents: Vec<GenoSeq> = vec![[1, 2, 3, 4], [5, 6, 7, 8], [9, 10, 11, 12]];
    assert_eq!(
        cross_pairs(&parents, &vec![2]),
        vec![[1, 2, 7, 8], [5, 6, 3, 4], [9, 10, 11, 12]]
    );
    assert_eq!(cross_pairs(&parents[..2].to_vec(), &vec![3]), vec![[1, 2, 3, 8], [5, 6, 7, 4]]);
}

#[test]
fn mutation_changes_at_most_one_weight() {
    let inds = sample_population();
    let mutants = mutation(&inds, 3);
    assert_eq!(mutants.len(), 3);
    for m in &mutants {
        assert!(inds.iter().any(|i| (0..4).filter(|&s| i.geno[s] != m[s]).count() <= 1));
    }
}

#[test]
fn next_generation_has_population_size() {
    let inds = sample_population();
    assert_eq!(gen_next_generation(&inds).len(), 5);
    let pop = initial_population(POPULATION);
    assert_eq!(gen_next_generation(&pop).len(), POPULATION);
}

#[test]
fn initial_population_is_unscored() {
    let pop = initial_population(POPULATION);
    assert_eq!(pop.len(), POPULATION);
    assert!(pop.iter().all(|i| i.score == 0));
    assert_eq!(random_individual().score, 0);
}

#[test]
fn training_turn_locks_a_piece() {
    let mut game = Game::new();
    let going_on = training_turn(&mut game, &[10, 10, 10, 10]);
    assert!(going_on);
    assert_eq!(game.pos, Position::init());
    assert_eq!(game.next.len(), 7);
    let blocks = (1..21)
        .flat_map(|y| (2..12).map(move |x| (y, x)))
        .filter(|&(y, x)| game.field[y][x] != 0)
        .count();
    assert_eq!(blocks, 4);
}

#[test]
fn training_turn_stops_at_line_ceiling() {
    let mut game = Game::new();
    game.total_line = LINE_COUNT_MAX;
    let field = game.field;
    assert!(!training_turn(&mut game, &[1, 1, 1, 1]));
    assert_eq!(game.field, field);
}

#[test]
fn crossover_cut_points_vary() {
    let inds = vec![
        Individual { geno: [0, 0, 0, 0], score: 0 },
        Individual { geno: [1, 1, 1, 1], score: 0 },
    ];
    let mut seen = std::collections::HashSet::new();
    for _ in 0..200 {
        for c in crossover(&inds, 2) {
            seen.insert(c);
        }
    }
    assert!(seen.len() > 2);
    assert!(seen.iter().all(|c| c != &[0, 0, 0, 0] && c != &[1, 1, 1, 1]));
}

#[test]
fn breed_replaces_genomes_and_keeps_scores() {
    let mut inds = sample_population();
    let scores: Vec<usize> = inds.iter().map(|i| i.score).collect();
    breed(&mut inds);
    assert_eq!(inds.len(), 5);
    assert_eq!(inds.iter().map(|i| i.score).collect::<Vec<_>>(), scores);
    assert!(inds.iter().any(|i| i.geno == [5, 6, 7, 8] || i.geno == [13, 14, 15, 16]));
}
