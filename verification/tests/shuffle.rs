use shuf::read_from_iter;
use std::io::{Error, ErrorKind};

fn sorted(mut lines: Vec<String>) -> Vec<String> {
    lines.sort();
    lines
}

fn letters() -> Vec<String> {
    ["a", "b", "c", "d", "e"].iter().map(|s| s.to_string()).collect()
}

#[test]
fn test_read_from_iter() {
    let n = 100;
    let items: Vec<Result<usize, std::io::Error>> =
        (0..n).map(|_| Ok(rand::random::<usize>())).collect();

    let shuffled = read_from_iter(items.into_iter());

    assert_eq!(shuffled.unwrap().len(), n);
}

#[test]
fn shuffle_of_five_letters_is_a_permutation() {
    let input: Vec<Result<String, Error>> = letters().into_iter().map(Ok).collect();
    let shuffled = read_from_iter(input.into_iter()).unwrap();
    assert_eq!(shuffled.len(), 5);
    assert_eq!(sorted(shuffled), letters());
}

#[test]
fn shuffle_keeps_length_and_lines() {
    for count in [0usize, 1, 2, 3, 17, 256] {
        let lines: Vec<String> = (0..count).map(|i| format!("{}", i % 5)).collect();
        let input: Vec<Result<String, Error>> = lines.iter().cloned().map(Ok).collect();
        let shuffled = read_from_iter(input.into_iter()).unwrap();
        assert_eq!(shuffled.len(), count);
        assert_eq!(sorted(shuffled), sorted(lines));
    }
}

#[test]
fn shuffle_keeps_repeated_lines() {
    let lines = vec!["x".to_string(), "x".to_string(), "y".to_string(), "x".to_string()];
    let input: Vec<Result<String, Error>> = lines.iter().cloned().map(Ok).collect();
    let shuffled = read_from_iter(input.into_iter()).unwrap();
    assert_eq!(
        sorted(shuffled),
        vec!["x".to_string(), "x".to_string(), "x".to_string(), "y".to_string()]
    );
}

#[test]
fn shuffle_of_nothing_is_empty() {
    let input: Vec<Result<String, Error>> = Vec::new();
    let shuffled = read_from_iter(input.into_iter()).unwrap();
    assert_eq!(shuffled, Vec::<String>::new());
}

#[test]
fn shuffle_of_one_line_is_that_line() {
    let input: Vec<Result<String, Error>> = vec![Ok("only".to_string())];
    let shuffled = read_from_iter(input.into_iter()).unwrap();
    assert_eq!(shuffled, vec!["only".to_string()]);
}

#[test]
fn shuffle_passes_over_a_failed_line() {
    let input: Vec<Result<String, Error>> = vec![
        Ok("one".to_string()),
        Ok("two".to_string()),
        Err(Error::new(ErrorKind::InvalidData, "not text")),
        Ok("three".to_string()),
        Ok("four".to_string()),
    ];
    let shuffled = read_from_iter(input.into_iter()).unwrap();
    assert_eq!(
        sorted(shuffled),
        vec!["four".to_string(), "one".to_string(), "three".to_string(), "two".to_string()]
    );
}

#[test]
fn shuffle_of_failures_alone_is_empty() {
    let input: Vec<Result<String, Error>> = vec![
        Err(Error::new(ErrorKind::InvalidData, "not text")),
        Err(Error::new(ErrorKind::Other, "gone")),
    ];
    let shuffled = read_from_iter(input.into_iter()).unwrap();
    assert_eq!(shuffled, Vec::<String>::new());
}

#[test]
fn shuffle_changes_the_order() {
    let lines: Vec<usize> = (0..100).collect();
    let input: Vec<Result<usize, Error>> = lines.iter().cloned().map(Ok).collect();
    let shuffled = read_from_iter(input.into_iter()).unwrap();
    assert_ne!(shuffled, lines);
    let mut back = shuffled;
    back.sort();
    assert_eq!(back, lines);
}

#[test]
fn shuffle_reads_a_lazy_source_once() {
    let mut pulled = 0usize;
    let source = (0..50usize).map(|i| {
        pulled += 1;
        Ok::<usize, Error>(i)
    });
    let mut shuffled = read_from_iter(source).unwrap();
    shuffled.sort();
    assert_eq!(shuffled, (0..50).collect::<Vec<usize>>());
    assert_eq!(pulled, 50);
}

#[test]
fn every_order_of_three_lines_comes_up() {
    let mut seen = [0usize; 6];
    for _ in 0..6000 {
        let input: Vec<Result<usize, Error>> = vec![Ok(0), Ok(1), Ok(2)];
        let shuffled = read_from_iter(input.into_iter()).unwrap();
        let order = match (shuffled[0], shuffled[1], shuffled[2]) {
            (0, 1, 2) => 0,
            (0, 2, 1) => 1,
            (1, 0, 2) => 2,
            (1, 2, 0) => 3,
            (2, 0, 1) => 4,
            (2, 1, 0) => 5,
            other => panic!("not an order of the input: {:?}", other),
        };
        seen[order] += 1;
    }
    for count in seen {
        assert!(count > 700 && count < 1300, "an order came up {} times", count);
    }
}
