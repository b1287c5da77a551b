use abyss_lang::diagnostics::{did_you_mean, label_with_suggestions, levenshtein};

#[test]
fn levenshtein_handles_empty_inputs() {
    assert_eq!(levenshtein("", ""), 0);
    assert_eq!(levenshtein("forge", ""), 5);
    assert_eq!(levenshtein("", "forge"), 5);
}

#[test]
fn levenshtein_matches_known_distances() {
    assert_eq!(levenshtein("forge", "forge"), 0);
    assert_eq!(levenshtein("forge", "forg"), 1);
    assert_eq!(levenshtein("counter", "countar"), 1);
    assert_eq!(levenshtein("kitten", "sitting"), 3);
}

#[test]
fn did_you_mean_returns_closest_first() {
    let candidates = ["counter", "countdown", "cosine"];
    assert_eq!(did_you_mean("countar", &candidates, 3), vec!["counter".to_string()]);
}

#[test]
fn did_you_mean_skips_exact_match() {
    let candidates = ["counter", "countdown"];
    assert_eq!(did_you_mean("counter", &candidates, 3), Vec::<String>::new());
}

#[test]
fn did_you_mean_respects_max_count() {
    let candidates = ["counter", "counters", "counted"];
    assert_eq!(did_you_mean("countet", &candidates, 2).len(), 2);
}

#[test]
fn did_you_mean_filters_distant_candidates() {
    let candidates = ["completely_different", "another_unrelated"];
    assert!(did_you_mean("xyz", &candidates, 3).is_empty());
}

#[test]
fn label_with_suggestions_formats_one_match() {
    assert_eq!(
        label_with_suggestions("countar", &["counter".to_string()]),
        "countar (did you mean: counter?)"
    );
}

#[test]
fn label_with_suggestions_formats_multiple_matches() {
    assert_eq!(
        label_with_suggestions("healht", &["health".to_string(), "heat".to_string()]),
        "healht (did you mean: health, or heat?)"
    );
}

#[test]
fn label_with_suggestions_passes_through_when_empty() {
    assert_eq!(label_with_suggestions("countar", &[]), "countar");
}

#[test]
fn did_you_mean_orders_by_distance_then_input_order() {
    let candidates = ["forged", "forg", "fore"];
    assert_eq!(did_you_mean("forge", &candidates, 3), vec!["forged".to_string(), "forg".to_string(), "fore".to_string()]);
    let candidates = ["abcd", "abce", "abc"];
    assert_eq!(did_you_mean("abcf", &candidates, 1), vec!["abcd".to_string()]);
}

#[test]
fn did_you_mean_with_zero_count_is_empty() {
    let candidates = ["counter"];
    assert!(did_you_mean("countar", &candidates, 0).is_empty());
}

#[test]
fn levenshtein_counts_characters_not_bytes() {
    assert_eq!(levenshtein("é", "e"), 1);
    assert_eq!(levenshtein("añb", "anb"), 1);
}

#[test]
fn levenshtein_is_symmetric() {
    for (a, b) in [("forge", "forg"), ("kitten", "sitting"), ("", "abc"), ("oracle", "orbit")] {
        assert_eq!(levenshtein(a, b), levenshtein(b, a));
    }
    assert_eq!(levenshtein("oracle", "orbit"), levenshtein("orbit", "oracle"));
}
