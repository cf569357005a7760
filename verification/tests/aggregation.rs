use crawl_stats::aggregate::{aggregate, average, median, rank, tally, AggregateError, CodeCount};
use crawl_stats::order::sort_descending;
use crawl_stats::outcome::Outcome;

fn outcome(code: &str, elapsed_millis: u64) -> Outcome {
    Outcome {
        url: format!("http://host.test/{}/{}", code, elapsed_millis),
        code: code.to_string(),
        elapsed_millis,
        body_length: None,
    }
}

fn pairs(entries: &Vec<CodeCount>) -> Vec<(String, usize)> {
    entries.iter().map(|e| (e.code.clone(), e.count)).collect()
}

#[test]
fn four_outcomes_are_summarised() {
    let outcomes = vec![
        outcome("200", 10),
        outcome("200", 20),
        outcome("404", 30),
        outcome("500", 40),
    ];
    let stats = aggregate(&outcomes, 55).unwrap();
    assert_eq!(
        pairs(&stats.counts_by_code),
        vec![("200".to_string(), 2), ("404".to_string(), 1), ("500".to_string(), 1)]
    );
    assert_eq!(stats.ranked_codes[0].code, "200");
    assert_eq!(stats.ranked_codes[0].count, 2);
    assert_eq!(stats.ranked_codes.len(), 3);
    assert_eq!(stats.outcome_count, 4);
    assert_eq!(stats.total_elapsed_millis, 55);
    assert_eq!(stats.average_latency_millis, 25);
    assert_eq!(stats.median_latency_millis, 20);
}

#[test]
fn no_outcomes_are_refused() {
    let outcomes: Vec<Outcome> = Vec::new();
    assert!(matches!(aggregate(&outcomes, 0), Err(AggregateError::NoOutcomes)));
    assert_eq!(average(&Vec::new()), None);
    assert_eq!(median(&Vec::new()), None);
}

#[test]
fn latencies_sort_from_largest_to_smallest() {
    assert_eq!(sort_descending(&vec![10, 20, 30, 40]), vec![40, 30, 20, 10]);
    assert_eq!(sort_descending(&vec![3, 3, 1, 7, 3]), vec![7, 3, 3, 3, 1]);
    assert_eq!(sort_descending(&Vec::new()), Vec::<u64>::new());
}

#[test]
fn median_is_the_value_at_half_the_count() {
    assert_eq!(median(&vec![7]), Some(7));
    assert_eq!(median(&vec![1, 9]), Some(1));
    assert_eq!(median(&vec![5, 1, 9]), Some(5));
    assert_eq!(median(&vec![10, 20, 30, 40]), Some(20));
    assert_eq!(median(&vec![40, 10, 30, 20, 50]), Some(30));
}

#[test]
fn average_rounds_down_and_does_not_overflow() {
    assert_eq!(average(&vec![10, 20, 30, 40]), Some(25));
    assert_eq!(average(&vec![1, 2]), Some(1));
    assert_eq!(average(&vec![u64::MAX, u64::MAX, u64::MAX]), Some(u64::MAX));
    assert_eq!(average(&vec![u64::MAX, 0]), Some(u64::MAX / 2));
}

#[test]
fn failures_count_like_responses() {
    let outcomes = vec![
        outcome("connection refused", 5),
        outcome("200", 100),
        outcome("connection refused", 7),
    ];
    let stats = aggregate(&outcomes, 120).unwrap();
    assert_eq!(
        pairs(&stats.ranked_codes),
        vec![("connection refused".to_string(), 2), ("200".to_string(), 1)]
    );
    assert_eq!(stats.average_latency_millis, 37);
    assert_eq!(stats.median_latency_millis, 7);
}

#[test]
fn equal_counts_rank_in_order_of_first_occurrence() {
    let outcomes = vec![
        outcome("b", 1),
        outcome("a", 1),
        outcome("c", 1),
        outcome("c", 1),
        outcome("a", 1),
        outcome("d", 1),
    ];
    let counts = tally(&outcomes);
    assert_eq!(
        pairs(&counts),
        vec![
            ("b".to_string(), 1),
            ("a".to_string(), 2),
            ("c".to_string(), 2),
            ("d".to_string(), 1)
        ]
    );
    let ranked = rank(&counts);
    assert_eq!(
        pairs(&ranked),
        vec![
            ("a".to_string(), 2),
            ("c".to_string(), 2),
            ("b".to_string(), 1),
            ("d".to_string(), 1)
        ]
    );
}

#[test]
fn counts_add_up_to_the_number_of_outcomes() {
    let outcomes = vec![
        outcome("200", 1),
        outcome("404", 2),
        outcome("200", 3),
        outcome("timed out", 4),
        outcome("200", 5),
    ];
    let stats = aggregate(&outcomes, 9).unwrap();
    let total: usize = stats.counts_by_code.iter().map(|e| e.count).sum();
    assert_eq!(total, outcomes.len());
    assert_eq!(stats.outcome_count, outcomes.len());
}
