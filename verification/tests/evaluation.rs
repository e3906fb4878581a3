use astral::evaluation::{case_counts, default_dataset, EvaluationCase};

#[test]
fn default_dataset_lives_in_the_repository() {
    assert_eq!(default_dataset("/work/repo"), "/work/repo/evaluation/search_quality.json");
}

fn strings(values: &[&str]) -> Vec<String> {
    values.iter().map(|v| v.to_string()).collect()
}

#[test]
fn counts_distinct_top_paths_hits_and_first_hit() {
    let case = EvaluationCase {
        id: "c1".to_owned(),
        query: "refresh".to_owned(),
        expected_paths: strings(&["b.ts", "d.ts", "b.ts"]),
        k: 3,
    };
    let counts = case_counts(&case, &strings(&["a.ts", "a.ts", "b.ts", "c.ts", "d.ts"]));
    assert_eq!(counts.k, 3);
    assert_eq!(counts.top_paths, strings(&["a.ts", "b.ts", "c.ts"]));
    assert_eq!(counts.hits, 1);
    assert_eq!(counts.expected, 2);
    assert_eq!(counts.first_hit, Some(1));
}

#[test]
fn a_zero_k_counts_as_one_and_no_hit_has_no_position() {
    let case = EvaluationCase { id: "c".to_owned(), query: "q".to_owned(), expected_paths: vec![], k: 0 };
    let counts = case_counts(&case, &strings(&["a.ts", "b.ts"]));
    assert_eq!(counts.k, 1);
    assert_eq!(counts.top_paths, strings(&["a.ts"]));
    assert_eq!(counts.hits, 0);
    assert_eq!(counts.expected, 0);
    assert_eq!(counts.first_hit, None);
}
