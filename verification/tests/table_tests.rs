use rogue::random_table::RandomTable;

#[test]
fn empty_table_always_yields_no_outcome() {
    let mut rng = rltk::RandomNumberGenerator::seeded(1);
    let table: RandomTable<u32> = RandomTable::new();
    for _ in 0..100 {
        assert_eq!(table.roll(&mut rng), None);
    }
}

#[test]
fn all_zero_weights_yield_no_outcome() {
    let mut rng = rltk::RandomNumberGenerator::seeded(2);
    let table: RandomTable<u32> = RandomTable::new().insert(1, 0).insert(2, 0).insert(3, 0);
    for _ in 0..100 {
        assert_eq!(table.roll(&mut rng), None);
    }
}

#[test]
fn zero_weight_outcome_is_never_rolled() {
    // Outcomes {A: 0, B: 100}: over many seeded trials only B appears.
    let mut rng = rltk::RandomNumberGenerator::seeded(3);
    let table: RandomTable<char> = RandomTable::new().insert('A', 0).insert('B', 100);
    for _ in 0..1000 {
        assert_eq!(table.roll(&mut rng), Some('B'));
    }
}

#[test]
fn roll_is_reproducible_for_a_fixed_seed() {
    let table: RandomTable<u32> = RandomTable::new().insert(1, 10).insert(2, 20).insert(3, 30);
    let mut rng1 = rltk::RandomNumberGenerator::seeded(99);
    let mut rng2 = rltk::RandomNumberGenerator::seeded(99);
    for _ in 0..200 {
        assert_eq!(table.roll(&mut rng1), table.roll(&mut rng2));
    }
}

#[test]
fn observed_frequencies_track_weight_ratios() {
    // Outcomes {A: 25, B: 75}: the observed share of B converges to 3/4.
    let mut rng = rltk::RandomNumberGenerator::seeded(4);
    let table: RandomTable<char> = RandomTable::new().insert('A', 25).insert('B', 75);
    let trials = 20000;
    let mut b_count = 0u32;
    let mut total = 0u32;
    for _ in 0..trials {
        match table.roll(&mut rng) {
            Some('B') => {
                b_count += 1;
                total += 1;
            }
            Some('A') => {
                total += 1;
            }
            _ => panic!("empty roll from a weighted table"),
        }
    }
    assert_eq!(total, trials);
    let share = f64::from(b_count) / f64::from(trials);
    assert!(share > 0.72 && share < 0.78, "share of B was {}", share);
}

#[test]
fn draws_walk_the_cumulative_weights() {
    // {A: 2, B: 3}: draws 1..=2 pick A, draws 3..=5 pick B.
    let table: RandomTable<char> = RandomTable::new().insert('A', 2).insert('B', 3);
    assert_eq!(table.total(), 5);
    assert_eq!(table.roll_at(1), 'A');
    assert_eq!(table.roll_at(2), 'A');
    assert_eq!(table.roll_at(3), 'B');
    assert_eq!(table.roll_at(4), 'B');
    assert_eq!(table.roll_at(5), 'B');
}
