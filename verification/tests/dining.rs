use moderate::dining::{
    acquisition_order, pause_millis, Phase, Table, PAUSE_END_MS, PAUSE_MIN_MS, SEATS,
};

#[test]
fn acquisition_order_at_the_table_of_six() {
    assert_eq!(SEATS, 6);
    assert_eq!(acquisition_order(0, 6), (0, 1));
    assert_eq!(acquisition_order(1, 6), (1, 2));
    assert_eq!(acquisition_order(4, 6), (4, 5));
    assert_eq!(acquisition_order(5, 6), (0, 5));
}

#[test]
fn acquisition_order_lower_number_first() {
    for n in 2..20usize {
        for i in 0..n {
            let (low, high) = acquisition_order(i, n);
            assert!(low < high);
            assert!(high < n);
            let mut pair = [i, (i + 1) % n];
            pair.sort();
            assert_eq!([low, high], pair);
        }
    }
    assert_eq!(acquisition_order(0, 1), (0, 0));
    assert_eq!(acquisition_order(1, 2), (0, 1));
    assert_eq!(acquisition_order(0, 2), (0, 1));
}

#[test]
fn table_needs_two_workers() {
    assert!(Table::new(0).is_none());
    assert!(Table::new(1).is_none());
    assert!(Table::new(2).is_some());
    assert!(Table::play(1, &[0, 0]).is_none());
    let table = Table::new(SEATS).unwrap();
    assert_eq!(table.seats(), 6);
    for w in 0..6 {
        assert_eq!(table.phase_of(w), Phase::Thinking);
        assert_eq!(table.holder_of(w), None);
    }
}

#[test]
fn worker_takes_eats_and_puts_back() {
    let mut table = Table::new(6).unwrap();
    assert!(table.step(2));
    assert_eq!(table.phase_of(2), Phase::Reaching);
    assert_eq!(table.holder_of(2), Some(2));
    assert_eq!(table.holder_of(3), None);
    assert!(table.step(2));
    assert_eq!(table.phase_of(2), Phase::Eating);
    assert_eq!(table.holder_of(2), Some(2));
    assert_eq!(table.holder_of(3), Some(2));
    assert!(table.step(2));
    assert_eq!(table.phase_of(2), Phase::Thinking);
    assert_eq!(table.holder_of(2), None);
    assert_eq!(table.holder_of(3), None);
    assert!(!table.step(6));
    assert!(!table.step(usize::MAX));
}

#[test]
fn neighbour_waits_for_a_held_chopstick() {
    let mut table = Table::new(6).unwrap();
    assert!(table.step(2));
    assert!(table.step(2));
    // Worker 1 can take chopstick 1 but not chopstick 2.
    assert!(table.step(1));
    assert!(!table.step(1));
    assert!(!table.can_move(1));
    // Worker 3 wants chopstick 3 first.
    assert!(!table.step(3));
    assert_eq!(table.phase_of(3), Phase::Thinking);
    assert!(table.step(2));
    assert!(table.step(1));
    assert_eq!(table.phase_of(1), Phase::Eating);
    assert!(table.step(3));
}

#[test]
fn last_worker_takes_chopstick_zero_first() {
    let mut table = Table::new(6).unwrap();
    // Each worker in turn tries once. The last one wants chopstick 0, which
    // worker 0 holds, and so takes nothing.
    for w in 0..5 {
        assert!(table.step(w));
        assert_eq!(table.phase_of(w), Phase::Reaching);
    }
    assert!(!table.step(5));
    assert_eq!(table.phase_of(5), Phase::Thinking);
    assert_eq!(table.holder_of(5), None);
    // So worker 4 can take chopstick 5 and eat.
    assert_eq!(table.ready(), 4);
    assert!(table.step(4));
    assert_eq!(table.phase_of(4), Phase::Eating);
}

fn check_no_chopstick_held_twice(table: &Table) {
    let n = table.seats();
    let mut held = vec![0usize; n];
    for w in 0..n {
        let (low, high) = acquisition_order(w, n);
        match table.phase_of(w) {
            Phase::Thinking => {}
            Phase::Reaching => held[low] += 1,
            Phase::Eating => {
                held[low] += 1;
                held[high] += 1;
            }
        }
    }
    for r in 0..n {
        assert!(held[r] <= 1);
        assert_eq!(held[r] == 1, table.holder_of(r).is_some());
    }
}

#[test]
fn round_robin_lets_every_worker_eat_again_and_again() {
    for n in [2usize, 3, 6, 11] {
        let mut table = Table::new(n).unwrap();
        let mut meals = vec![0u32; n];
        for round in 0..600 {
            for w in 0..n {
                let before = table.phase_of(w);
                if table.step(w) && before == Phase::Reaching {
                    meals[w] += 1;
                }
                check_no_chopstick_held_twice(&table);
                assert!(table.can_move(table.ready()));
            }
            if round == 299 {
                assert!(meals.iter().all(|&m| m > 0));
            }
        }
        let mut first_half = vec![0u32; n];
        let mut again = Table::new(n).unwrap();
        for _ in 0..300 {
            for w in 0..n {
                let before = again.phase_of(w);
                if again.step(w) && before == Phase::Reaching {
                    first_half[w] += 1;
                }
            }
        }
        for w in 0..n {
            assert!(meals[w] > first_half[w]);
        }
    }
}

#[test]
fn odd_schedules_never_lock_the_table() {
    let n = 6;
    let mut seed: u64 = 12345;
    let mut schedule = Vec::new();
    for _ in 0..5000 {
        seed = seed.wrapping_mul(6364136223846793005).wrapping_add(1442695040888963407);
        schedule.push((seed >> 33) as usize % n);
    }
    for cut in [0usize, 1, 10, 100, 1000, 5000] {
        let table = Table::play(n, &schedule[..cut]).unwrap();
        check_no_chopstick_held_twice(&table);
        let w = table.ready();
        assert!(w < n);
        assert!(table.can_move(w));
        assert!((0..n).any(|v| table.phase_of(v) != Phase::Reaching));
    }
}

#[test]
fn same_schedule_gives_the_same_table() {
    let schedule = [0usize, 1, 2, 3, 4, 5, 4, 4, 3, 0, 5, 5, 1, 2];
    let one = Table::play(6, &schedule).unwrap();
    let other = Table::play(6, &schedule).unwrap();
    for w in 0..6 {
        assert_eq!(one.phase_of(w), other.phase_of(w));
        assert_eq!(one.holder_of(w), other.holder_of(w));
    }
}

#[test]
fn pause_millis_stays_in_its_range() {
    assert_eq!(PAUSE_MIN_MS, 10);
    assert_eq!(PAUSE_END_MS, 100);
    let mut rng = rand::thread_rng();
    let mut seen = Vec::new();
    for _ in 0..2000 {
        let ms = pause_millis(&mut rng);
        assert!(ms >= 10);
        assert!(ms < 100);
        if !seen.contains(&ms) {
            seen.push(ms);
        }
    }
    // Neither end of the range is what comes back each time.
    assert!(seen.len() > 1);
}
