use moderate::arith::number_max;
use moderate::closest::{smallest_diff_from, smallest_difference};
use moderate::english::{english_int, english_int_base, MAX};
use moderate::tictactoe::{TicTacToeGrid, TicTacToeSymbol};

#[test]
fn test_find_winner() {
    let grid = TicTacToeGrid::from_string("XX \nO X\n  O").unwrap();
    let winner = grid.find_winner();
    assert_eq!(winner, None);

    let grid = TicTacToeGrid::from_string("XXO\nOOX\nO X").unwrap();
    let winner = grid.find_winner();
    assert_eq!(winner, Some(TicTacToeSymbol::Circle));
}

#[test]
fn test_smallest_diff() {
    let a = vec![1, 3, 15, 11, 2];
    let b = vec![23, 127, 235, 19, 8];

    let diff = smallest_difference(&a, &b);
    assert_eq!(diff, Some(3));
}

#[test]
fn test_number_max() {
    assert_eq!(number_max(3, 5), 5);
    assert_eq!(number_max(1, 1), 1);
    assert_eq!(number_max(44, -12), 44);
    assert_eq!(number_max(-99, -121), -99);
}

#[test]
fn test_english_int() {
    assert_eq!(english_int(0).unwrap().as_str(), "zero");
    assert_eq!(english_int(7).unwrap().as_str(), "seven");
    assert_eq!(english_int(13).unwrap().as_str(), "thirteen");
    assert_eq!(english_int(42).unwrap().as_str(), "forty two");
    assert_eq!(english_int(256).unwrap().as_str(), "two hundred fifty six");
    assert_eq!(
        english_int(1234).unwrap().as_str(),
        "one thousand two hundred thirty four"
    );
    assert_eq!(english_int(1000000).unwrap().as_str(), "one million",);
    assert_eq!(
        english_int(3250000000).unwrap().as_str(),
        "three billion two hundred fifty million"
    );
}

#[test]
fn number_max_at_the_ends_of_the_range() {
    assert_eq!(number_max(i64::MAX, i64::MIN), i64::MAX);
    assert_eq!(number_max(i64::MIN, i64::MAX), i64::MAX);
    assert_eq!(number_max(i64::MIN, i64::MIN), i64::MIN);
    assert_eq!(number_max(i64::MAX, i64::MAX), i64::MAX);
    assert_eq!(number_max(-1, 0), 0);
}

#[test]
fn english_int_refuses_what_is_out_of_range() {
    assert_eq!(english_int(-1), Err(()));
    assert_eq!(english_int(i64::MIN), Err(()));
    assert_eq!(english_int(MAX + 1), Err(()));
    assert_eq!(english_int(i64::MAX), Err(()));
}

#[test]
fn english_int_spells_its_largest_number() {
    assert_eq!(MAX, 10_000_000_000_000);
    assert_eq!(english_int(MAX).unwrap().as_str(), "ten trillion");
    assert_eq!(
        english_int(MAX - 1).unwrap().as_str(),
        "nine trillion nine hundred ninety nine billion nine hundred ninety nine million \
         nine hundred ninety nine thousand nine hundred ninety nine"
    );
}

#[test]
fn english_int_passes_over_empty_groups() {
    assert_eq!(english_int(1_000_001).unwrap().as_str(), "one million one");
    assert_eq!(english_int(2_000_000_000).unwrap().as_str(), "two billion");
    assert_eq!(english_int(1_000).unwrap().as_str(), "one thousand");
    assert_eq!(english_int(90_019).unwrap().as_str(), "ninety thousand nineteen");
}

#[test]
fn english_int_tens_and_teens() {
    assert_eq!(english_int(10).unwrap().as_str(), "ten");
    assert_eq!(english_int(19).unwrap().as_str(), "nineteen");
    assert_eq!(english_int(20).unwrap().as_str(), "twenty");
    assert_eq!(english_int(99).unwrap().as_str(), "ninety nine");
    assert_eq!(english_int(101).unwrap().as_str(), "one hundred one");
    assert_eq!(english_int(999).unwrap().as_str(), "nine hundred ninety nine");
}

#[test]
fn english_int_round_hundreds() {
    assert_eq!(english_int(100).unwrap().as_str(), "one hundred");
    assert_eq!(english_int(200).unwrap().as_str(), "two hundred");
    assert_eq!(english_int(900).unwrap().as_str(), "nine hundred");
    assert_eq!(english_int(1_100).unwrap().as_str(), "one thousand one hundred");
    assert_eq!(english_int(100_000).unwrap().as_str(), "one hundred thousand");
    assert_eq!(english_int(200_000).unwrap().as_str(), "two hundred thousand");
    assert_eq!(
        english_int(100_100_100_100).unwrap().as_str(),
        "one hundred billion one hundred million one hundred thousand one hundred"
    );
}

#[test]
fn english_int_base_groups() {
    assert_eq!(english_int_base(0).unwrap().as_str(), "");
    assert_eq!(english_int_base(5).unwrap().as_str(), "five");
    assert_eq!(english_int_base(40).unwrap().as_str(), "forty");
    assert_eq!(english_int_base(512).unwrap().as_str(), "five hundred twelve");
    assert_eq!(english_int_base(100).unwrap().as_str(), "one hundred");
    assert_eq!(english_int_base(300).unwrap().as_str(), "three hundred");
    assert_eq!(english_int_base(999).unwrap().as_str(), "nine hundred ninety nine");
    assert_eq!(english_int_base(1000), Err(()));
    assert_eq!(english_int_base(-1), Err(()));
}

#[test]
fn english_int_base_agrees_with_english_int() {
    for x in 1..1000 {
        assert_eq!(english_int_base(x).unwrap(), english_int(x).unwrap());
    }
}

fn sample_numbers() -> Vec<i64> {
    let mut numbers: Vec<i64> = (0..=2_200).collect();
    for scale in [1_000i64, 1_000_000, 1_000_000_000, 1_000_000_000_000] {
        for group in [1i64, 9, 10, 11, 19, 20, 21, 99, 100, 101, 110, 219, 900, 999] {
            for rest in [0i64, 1, 17, 100, 999] {
                let x = group * scale + rest;
                if x <= MAX {
                    numbers.push(x);
                }
            }
        }
    }
    numbers.push(MAX);
    numbers.push(MAX - 1);
    numbers.push(1_001_001_001_001);
    numbers.sort();
    numbers.dedup();
    numbers
}

#[test]
fn english_int_words_are_one_blank_apart() {
    for x in sample_numbers() {
        let text = english_int(x).unwrap();
        assert!(!text.is_empty());
        assert!(!text.starts_with(' '));
        assert!(!text.ends_with(' '));
        assert!(!text.contains("  "));
        assert!(text.chars().all(|c| c == ' ' || c.is_ascii_lowercase()));
    }
}

#[test]
fn english_int_spells_no_two_numbers_alike() {
    let numbers = sample_numbers();
    let mut texts: Vec<String> = numbers.iter().map(|&x| english_int(x).unwrap()).collect();
    texts.sort();
    texts.dedup();
    assert_eq!(texts.len(), numbers.len());
    assert_ne!(english_int(1_000).unwrap(), english_int(1_100).unwrap());
}

#[test]
fn symbol_from_each_character() {
    assert_eq!(TicTacToeSymbol::from('o').unwrap(), Some(TicTacToeSymbol::Circle));
    assert_eq!(TicTacToeSymbol::from('O').unwrap(), Some(TicTacToeSymbol::Circle));
    assert_eq!(TicTacToeSymbol::from('x').unwrap(), Some(TicTacToeSymbol::Cross));
    assert_eq!(TicTacToeSymbol::from('X').unwrap(), Some(TicTacToeSymbol::Cross));
    assert_eq!(TicTacToeSymbol::from(' ').unwrap(), None);
    assert!(TicTacToeSymbol::from('0').is_err());
    assert!(TicTacToeSymbol::from('\n').is_err());
    assert!(TicTacToeSymbol::from('-').is_err());
}

#[test]
fn grid_text_of_the_wrong_shape_is_refused() {
    assert!(TicTacToeGrid::from_string("").is_err());
    assert!(TicTacToeGrid::from_string("XXX\nOOO").is_err());
    assert!(TicTacToeGrid::from_string("XX\nO X\n  O").is_err());
    assert!(TicTacToeGrid::from_string("XXX\nOOO\nXXX\n").is_err());
    assert!(TicTacToeGrid::from_string("XXX\nOOO\nXXXX").is_err());
    assert!(TicTacToeGrid::from_string("XXXX\nOO\nXXX").is_err());
    assert!(TicTacToeGrid::from_string("XXX OOO XXX").is_err());
    assert!(TicTacToeGrid::from_string("XXX\nOOO\nXXX").is_ok());
}

#[test]
fn grid_text_with_a_strange_character_is_refused() {
    assert!(TicTacToeGrid::from_string("XX.\nO X\n  O").is_err());
    assert!(TicTacToeGrid::from_string("XX \nO X\n  0").is_err());
    assert!(TicTacToeGrid::from_string("XX \n\n\nX\n  O").is_err());
}

#[test]
fn winner_in_a_row_a_column_and_each_diagonal() {
    let cross = Some(TicTacToeSymbol::Cross);
    let circle = Some(TicTacToeSymbol::Circle);
    for text in ["xxx\n o \no  ", " o \nxxx\no  ", " o \no  \nxxx"] {
        assert_eq!(TicTacToeGrid::from_string(text).unwrap().find_winner(), cross);
    }
    for text in ["ox \no x\no  ", "xo \n ox\n o ", "x o\n xo\n  o"] {
        assert_eq!(TicTacToeGrid::from_string(text).unwrap().find_winner(), circle);
    }
    let falling = TicTacToeGrid::from_string("x o\nox \n  x").unwrap();
    assert_eq!(falling.find_winner(), cross);
    let rising = TicTacToeGrid::from_string("x o\n ox\no  ").unwrap();
    assert_eq!(rising.find_winner(), circle);
    let empty = TicTacToeGrid::from_string("   \n   \n   ").unwrap();
    assert_eq!(empty.find_winner(), None);
}

#[test]
fn winner_rows_come_before_columns() {
    // A row of crosses and a column of circles cannot both stand on one
    // board, but two rows can: the upper one is found.
    let grid = TicTacToeGrid::from_string("ooo\nxxx\n   ").unwrap();
    assert_eq!(grid.find_winner(), Some(TicTacToeSymbol::Circle));
    let grid = TicTacToeGrid::from_string("   \nxxx\nooo").unwrap();
    assert_eq!(grid.find_winner(), Some(TicTacToeSymbol::Cross));
    // A column of circles beside a column of crosses: the left one.
    let grid = TicTacToeGrid::from_string("xo \nxo \nxo ").unwrap();
    assert_eq!(grid.find_winner(), Some(TicTacToeSymbol::Cross));
}

#[test]
fn row_winner_of_three_cells() {
    let o = Some(TicTacToeSymbol::Circle);
    let x = Some(TicTacToeSymbol::Cross);
    assert_eq!(TicTacToeGrid::row_winner(&[o, o, o]), o);
    assert_eq!(TicTacToeGrid::row_winner(&[x, x, x]), x);
    assert_eq!(TicTacToeGrid::row_winner(&[x, o, x]), None);
    assert_eq!(TicTacToeGrid::row_winner(&[None, None, None]), None);
    assert_eq!(TicTacToeGrid::row_winner(&[x, x, None]), None);
}

#[test]
fn smallest_difference_of_an_empty_list() {
    assert_eq!(smallest_difference(&[], &[1, 2]), None);
    assert_eq!(smallest_difference(&[1, 2], &[]), None);
    assert_eq!(smallest_difference(&[], &[]), None);
}

#[test]
fn smallest_difference_sorts_both_lists() {
    // Walked as given, the second list would stop the pass at 100.
    assert_eq!(smallest_difference(&[5], &[1, 100, 5]), Some(0));
    assert_eq!(smallest_difference(&[40, -3, 12], &[30, 20, 0]), Some(3));
}

#[test]
fn smallest_difference_single_values() {
    assert_eq!(smallest_difference(&[7], &[7]), Some(0));
    assert_eq!(smallest_difference(&[-5], &[5]), Some(10));
    assert_eq!(smallest_difference(&[0], &[i64::MAX]), Some(i64::MAX));
    assert_eq!(smallest_difference(&[-1], &[i64::MIN]), Some(i64::MAX));
}

#[test]
fn smallest_difference_with_repeated_values() {
    assert_eq!(smallest_difference(&[6], &[1, 5, 5, 6]), Some(0));
    assert_eq!(smallest_difference(&[6], &[1, 5, 6]), Some(0));
    assert_eq!(smallest_difference(&[10], &[1, 1, 10]), Some(0));
    assert_eq!(smallest_difference(&[1, 1, 10], &[10]), Some(0));
    assert_eq!(smallest_difference(&[4, 4, 4], &[9, 9, 1, 1]), Some(3));
    assert_eq!(smallest_difference(&[7, 7], &[7, 7]), Some(0));
}

fn smallest_by_all_pairs(a: &[i64], b: &[i64]) -> Option<i64> {
    let mut least: Option<i64> = None;
    for &x in a {
        for &y in b {
            let d = (x - y).abs();
            if least.map_or(true, |l| d < l) {
                least = Some(d);
            }
        }
    }
    least
}

#[test]
fn smallest_difference_is_the_least_of_all_pairs() {
    let mut seed: u64 = 2024;
    let mut next = move |span: u64| {
        seed = seed.wrapping_mul(6364136223846793005).wrapping_add(1442695040888963407);
        ((seed >> 33) % span) as i64
    };
    for round in 0..400 {
        let span = if round % 2 == 0 { 12 } else { 1000 };
        let a: Vec<i64> = (0..1 + next(7)).map(|_| next(span) - (span as i64) / 2).collect();
        let b: Vec<i64> = (0..1 + next(9)).map(|_| next(span) - (span as i64) / 2).collect();
        let found = smallest_difference(&a, &b);
        assert_eq!(found, smallest_by_all_pairs(&a, &b));
        assert_eq!(found, smallest_difference(&b, &a));
        let mut turned_a = a.clone();
        turned_a.reverse();
        let mut turned_b = b.clone();
        turned_b.rotate_left(b.len() / 2);
        assert_eq!(found, smallest_difference(&turned_a, &turned_b));
        assert_eq!(found == Some(0), a.iter().any(|x| b.contains(x)));
    }
}

#[test]
fn smallest_difference_leaves_the_lists_as_they_are() {
    let a = vec![9, 1, 5];
    let b = vec![40, -3, 40, 7];
    assert_eq!(smallest_difference(&a, &b), Some(2));
    assert_eq!(a, vec![9, 1, 5]);
    assert_eq!(b, vec![40, -3, 40, 7]);
}

#[test]
fn smallest_diff_from_gives_distance_and_index() {
    assert_eq!(smallest_diff_from(10, &[]), None);
    assert_eq!(smallest_diff_from(10, &[1, 4, 9, 12, 30]), Some((1, 2)));
    assert_eq!(smallest_diff_from(10, &[12, 30]), Some((2, 0)));
    assert_eq!(smallest_diff_from(10, &[1, 4]), Some((6, 1)));
    assert_eq!(smallest_diff_from(10, &[8, 12]), Some((2, 0)));
    assert_eq!(smallest_diff_from(10, &[8, 12, 13]), Some((2, 0)));
    assert_eq!(smallest_diff_from(10, &[1, 1, 10]), Some((0, 2)));
    assert_eq!(smallest_diff_from(10, &[1, 1, 1]), Some((9, 0)));
    assert_eq!(smallest_diff_from(10, &[9, 11, 9, 10, 30]), Some((0, 3)));
    assert_eq!(smallest_diff_from(10, &[4, 1, 10]), Some((6, 0)));
}
