use moderate::pipeline::{buzz_handler, decimal_string, fizz_handler, Counter, Stage, LAST, STOP};
use moderate::ring::{run, Ring};

fn classic_line(i: u32) -> String {
    if i % 15 == 0 {
        String::from("FizzBuzz")
    } else if i % 3 == 0 {
        String::from("Fizz")
    } else if i % 5 == 0 {
        String::from("Buzz")
    } else {
        format!("{}", i)
    }
}

fn classic_text() -> String {
    let mut text = String::new();
    for i in 1..=100 {
        text.push_str(&classic_line(i));
        text.push('\n');
    }
    text
}

#[test]
fn run_writes_one_hundred_lines() {
    let text = run();
    assert!(text.ends_with('\n'));
    let lines: Vec<&str> = text.lines().collect();
    assert_eq!(lines.len(), 100);
    assert_eq!(text.matches('\n').count(), 100);
}

#[test]
fn run_lines_seven_nine_ten_and_fifteen() {
    let text = run();
    let lines: Vec<&str> = text.lines().collect();
    assert_eq!(lines[15 - 1], "FizzBuzz");
    assert_eq!(lines[9 - 1], "Fizz");
    assert_eq!(lines[10 - 1], "Buzz");
    assert_eq!(lines[7 - 1], "7");
    assert_eq!(lines[0], "1");
    assert_eq!(lines[99], "Buzz");
    assert_eq!(lines[97], "98");
}

#[test]
fn run_every_line() {
    let text = run();
    for (k, line) in text.lines().enumerate() {
        assert_eq!(line, classic_line(k as u32 + 1));
    }
    assert_eq!(text, classic_text());
}

#[test]
fn run_twice_gives_the_same_text() {
    assert_eq!(run(), run());
}

#[test]
fn constants_of_the_ring() {
    assert_eq!(LAST, 100);
    assert_eq!(STOP, 0);
}

#[test]
fn decimal_string_of_numbers() {
    assert_eq!(decimal_string(0), "0");
    assert_eq!(decimal_string(7), "7");
    assert_eq!(decimal_string(10), "10");
    assert_eq!(decimal_string(98), "98");
    assert_eq!(decimal_string(100), "100");
    assert_eq!(decimal_string(4_294_967_295), "4294967295");
}

#[test]
fn counter_first_moves() {
    let mut counter = Counter::new();
    assert!(!counter.needs_token());
    let r = counter.advance();
    assert_eq!(r.text, "1");
    assert_eq!(r.forward, Some(1));
    assert!(!r.done);
    assert!(counter.needs_token());
    let r = counter.advance();
    assert_eq!(r.text, "\n2");
    assert_eq!(r.forward, Some(2));
    let r = counter.advance();
    assert_eq!(r.text, "\n");
    assert_eq!(r.forward, Some(3));
    assert!(!r.done);
}

#[test]
fn counter_stops_after_the_last_number() {
    let mut counter = Counter::new();
    for i in 1..=LAST {
        let r = counter.advance();
        assert_eq!(r.forward, Some(i));
        assert!(!r.done);
    }
    let r = counter.advance();
    assert_eq!(r.text, "\n");
    assert_eq!(r.forward, Some(STOP));
    assert!(r.done);
    let again = counter.advance();
    assert_eq!(again.forward, Some(STOP));
    assert!(again.done);
}

#[test]
fn fizz_handler_reactions() {
    let r = fizz_handler(9);
    assert_eq!((r.text.as_str(), r.forward, r.done), ("Fizz", Some(9), false));
    let r = fizz_handler(10);
    assert_eq!((r.text.as_str(), r.forward, r.done), ("", Some(10), false));
    let r = fizz_handler(15);
    assert_eq!((r.text.as_str(), r.forward, r.done), ("Fizz", Some(15), false));
    let r = fizz_handler(STOP);
    assert_eq!((r.text.as_str(), r.forward, r.done), ("", Some(STOP), true));
}

#[test]
fn buzz_handler_reactions() {
    let r = buzz_handler(9);
    assert_eq!((r.text.as_str(), r.forward, r.done), ("", Some(9), false));
    let r = buzz_handler(10);
    assert_eq!((r.text.as_str(), r.forward, r.done), ("Buzz", Some(10), false));
    let r = buzz_handler(15);
    assert_eq!((r.text.as_str(), r.forward, r.done), ("Buzz", Some(15), false));
    let r = buzz_handler(STOP);
    assert_eq!((r.text.as_str(), r.forward, r.done), ("", None, true));
}

#[test]
fn ring_only_the_stage_with_the_token_moves() {
    let mut ring = Ring::new();
    assert_eq!(ring.in_flight(), 0);
    assert!(!ring.step(Stage::Fizz));
    assert!(!ring.step(Stage::Buzz));
    assert_eq!(ring.ready(), Some(Stage::Counter));
    assert!(ring.step(Stage::Counter));
    assert_eq!(ring.in_flight(), 1);
    assert!(!ring.step(Stage::Counter));
    assert!(!ring.step(Stage::Buzz));
    assert_eq!(ring.ready(), Some(Stage::Fizz));
    assert!(ring.step(Stage::Fizz));
    assert!(!ring.step(Stage::Fizz));
    assert_eq!(ring.ready(), Some(Stage::Buzz));
    assert!(ring.step(Stage::Buzz));
    assert_eq!(ring.ready(), Some(Stage::Counter));
    assert_eq!(ring.output(), "1");
    assert!(ring.step(Stage::Counter));
    assert_eq!(ring.output(), "1\n2");
    assert_eq!(ring.in_flight(), 1);
    assert!(!ring.is_finished());
}

#[test]
fn ring_any_schedule_writes_a_start_of_the_text() {
    let whole = classic_text();
    let orders = [
        [Stage::Counter, Stage::Fizz, Stage::Buzz],
        [Stage::Buzz, Stage::Fizz, Stage::Counter],
        [Stage::Fizz, Stage::Buzz, Stage::Counter],
    ];
    for order in orders {
        for rounds in [0usize, 1, 2, 7, 50, 150] {
            let mut schedule = Vec::new();
            for _ in 0..rounds {
                schedule.extend_from_slice(&order);
            }
            let ring = Ring::play(&schedule);
            assert!(whole.starts_with(ring.output()));
            assert!(ring.in_flight() <= 1);
        }
    }
}

#[test]
fn ring_a_stage_that_never_moves_stops_the_others() {
    let mut schedule = Vec::new();
    for _ in 0..50 {
        schedule.push(Stage::Counter);
        schedule.push(Stage::Fizz);
    }
    let ring = Ring::play(&schedule);
    assert_eq!(ring.output(), "1");
    assert_eq!(ring.ready(), Some(Stage::Buzz));
    assert!(!ring.is_finished());
}

#[test]
fn ring_ends_after_three_hundred_and_three_moves() {
    let mut ring = Ring::new();
    let mut moves = 0;
    while let Some(stage) = ring.ready() {
        assert!(ring.step(stage));
        moves += 1;
        assert!(moves <= 303);
    }
    assert_eq!(moves, 303);
    assert!(ring.is_finished());
    assert_eq!(ring.in_flight(), 0);
    assert_eq!(ring.output(), classic_text());
    for stage in [Stage::Counter, Stage::Fizz, Stage::Buzz] {
        assert!(!ring.step(stage));
    }
    assert_eq!(ring.output(), classic_text());
}

#[test]
fn ring_backward_schedule_ends_with_the_same_text() {
    let mut schedule = Vec::new();
    for _ in 0..303 {
        schedule.extend_from_slice(&[Stage::Buzz, Stage::Fizz, Stage::Counter]);
    }
    let ring = Ring::play(&schedule);
    assert!(ring.is_finished());
    assert_eq!(ring.output(), run());
}
