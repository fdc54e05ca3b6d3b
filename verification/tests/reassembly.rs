use chunk_pipeline::assemble::assemble;
use chunk_pipeline::dispatch::collect_in_order;

#[test]
fn assemble_concatenates_in_order() {
    let outcomes = vec![
        Some("The bee ".to_string()),
        Some("flies far ".to_string()),
        Some("from home.".to_string()),
    ];
    assert_eq!(assemble(&outcomes), "The bee flies far from home.");
}

#[test]
fn assemble_skips_failed_chunks() {
    // Exactly one failed chunk: the document is the remaining chunks, in order.
    let outcomes = vec![Some("alpha ".to_string()), None, Some("gamma".to_string())];
    assert_eq!(assemble(&outcomes), "alpha gamma");
    let without_failed = vec![Some("alpha ".to_string()), Some("gamma".to_string())];
    assert_eq!(assemble(&outcomes), assemble(&without_failed));
}

#[test]
fn assemble_all_failed_is_empty() {
    let outcomes = vec![None, None, None];
    assert_eq!(assemble(&outcomes), "");
}

#[test]
fn assemble_empty_is_empty() {
    let outcomes: Vec<Option<String>> = Vec::new();
    assert_eq!(assemble(&outcomes), "");
}

#[test]
fn collect_is_completion_order_independent() {
    let in_order = vec![
        (0usize, Some("a".to_string())),
        (1usize, Some("b".to_string())),
        (2usize, None),
        (3usize, Some("d".to_string())),
    ];
    let shuffled = vec![
        (2usize, None),
        (3usize, Some("d".to_string())),
        (0usize, Some("a".to_string())),
        (1usize, Some("b".to_string())),
    ];
    let s1 = collect_in_order(&in_order, 4).unwrap();
    let s2 = collect_in_order(&shuffled, 4).unwrap();
    assert_eq!(s1, s2);
    assert_eq!(
        s1,
        vec![Some("a".to_string()), Some("b".to_string()), None, Some("d".to_string())]
    );
    assert_eq!(assemble(&s1), "abd");
}

#[test]
fn collect_rejects_incomplete_outcomes() {
    // Wrong count.
    assert!(collect_in_order(&vec![(0usize, Some("a".to_string()))], 2).is_none());
    // Repeated index.
    let dup = vec![(0usize, Some("a".to_string())), (0usize, Some("b".to_string()))];
    assert!(collect_in_order(&dup, 2).is_none());
    // Out-of-range index.
    let oob = vec![(0usize, Some("a".to_string())), (5usize, Some("b".to_string()))];
    assert!(collect_in_order(&oob, 2).is_none());
}

#[test]
fn collect_empty_run() {
    let no_pairs: Vec<(usize, Option<String>)> = Vec::new();
    let slots = collect_in_order(&no_pairs, 0).unwrap();
    assert!(slots.is_empty());
    assert_eq!(assemble(&slots), "");
}
