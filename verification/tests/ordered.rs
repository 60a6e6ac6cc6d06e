use moderate::ordered::{next_op, run, Op, Runner, Signal, Task};

#[test]
fn run_gives_first_second_third() {
    assert_eq!(run(), vec![Task::First, Task::Second, Task::Third]);
}

#[test]
fn run_again_gives_the_same_order() {
    for _ in 0..10 {
        assert_eq!(run(), run());
    }
}

#[test]
fn labels_of_the_tasks() {
    assert_eq!(Task::First.label(), "first");
    assert_eq!(Task::Second.label(), "second");
    assert_eq!(Task::Third.label(), "third");
    let words: Vec<&str> = run().iter().map(|task| task.label()).collect();
    assert_eq!(words, vec!["first", "second", "third"]);
}

#[test]
fn operations_of_each_unit() {
    assert_eq!(next_op(Task::First, 0), Some(Op::Run(Task::First)));
    assert_eq!(next_op(Task::First, 1), Some(Op::Notify(Signal::AfterFirst)));
    assert_eq!(next_op(Task::First, 2), None);
    assert_eq!(next_op(Task::Second, 0), Some(Op::Await(Signal::AfterFirst)));
    assert_eq!(next_op(Task::Second, 1), Some(Op::Run(Task::Second)));
    assert_eq!(next_op(Task::Second, 2), Some(Op::Notify(Signal::AfterSecond)));
    assert_eq!(next_op(Task::Second, 3), None);
    assert_eq!(next_op(Task::Third, 0), Some(Op::Await(Signal::AfterSecond)));
    assert_eq!(next_op(Task::Third, 1), Some(Op::Run(Task::Third)));
    assert_eq!(next_op(Task::Third, 2), None);
    assert_eq!(next_op(Task::Third, usize::MAX), None);
}

#[test]
fn every_order_of_three_units_runs_the_tasks_in_order() {
    let units = [Task::First, Task::Second, Task::Third];
    let whole = vec![Task::First, Task::Second, Task::Third];
    for a in units {
        for b in units {
            for c in units {
                let mut schedule = Vec::new();
                for _ in 0..7 {
                    schedule.extend_from_slice(&[a, b, c]);
                }
                let runner = Runner::play(&schedule);
                assert!(whole.starts_with(runner.log()));
                if a != b && b != c && a != c {
                    assert!(runner.is_finished());
                    assert_eq!(runner.log(), &whole);
                }
            }
        }
    }
}

#[test]
fn last_unit_first_still_runs_last() {
    let schedule = [
        Task::Third,
        Task::Third,
        Task::Second,
        Task::Second,
        Task::First,
        Task::Third,
        Task::Second,
        Task::First,
        Task::Second,
        Task::Second,
        Task::Third,
        Task::Second,
        Task::Third,
        Task::Third,
    ];
    let runner = Runner::play(&schedule);
    assert!(runner.is_finished());
    assert_eq!(runner.log(), &vec![Task::First, Task::Second, Task::Third]);
}

#[test]
fn unit_that_waits_cannot_move_before_its_signal() {
    let mut runner = Runner::new();
    assert!(!runner.step(Task::Second));
    assert!(!runner.step(Task::Third));
    assert!(runner.step(Task::First));
    assert_eq!(runner.log(), &vec![Task::First]);
    // The first task has run, but its signal is not out yet.
    assert!(!runner.step(Task::Second));
    assert!(runner.step(Task::First));
    assert!(!runner.step(Task::First));
    assert!(!runner.step(Task::Third));
    assert!(runner.step(Task::Second));
    assert!(runner.step(Task::Second));
    assert_eq!(runner.log(), &vec![Task::First, Task::Second]);
    assert!(!runner.step(Task::Third));
    assert!(runner.step(Task::Second));
    assert!(runner.step(Task::Third));
    assert!(runner.step(Task::Third));
    assert!(runner.is_finished());
    assert_eq!(runner.ready(), None);
}

#[test]
fn unit_that_stops_early_leaves_the_others_waiting() {
    // The first unit runs its task and then never sends its signal.
    let mut schedule = vec![Task::First];
    for _ in 0..100 {
        schedule.push(Task::Second);
        schedule.push(Task::Third);
    }
    let runner = Runner::play(&schedule);
    assert_eq!(runner.log(), &vec![Task::First]);
    assert!(!runner.is_finished());
    assert_eq!(runner.ready(), Some(Task::First));
}

#[test]
fn runner_takes_seven_moves() {
    let mut runner = Runner::new();
    let mut moves = 0;
    while let Some(task) = runner.ready() {
        assert!(runner.step(task));
        moves += 1;
        assert!(moves <= 7);
    }
    assert_eq!(moves, 7);
    assert!(runner.is_finished());
}
