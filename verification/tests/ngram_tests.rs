use vtext::ngram_utils::{
    bigram, build_k_skip_n_grams, everygrams, ngrams, skipgrams, SampleCombinations,
};
use vtext::token_processing::pad_items;

use std::collections::HashSet;

fn words(s: &str) -> Vec<String> {
    s.split(' ').map(|w| w.to_string()).collect()
}

fn gram(ws: &[&str]) -> Vec<String> {
    ws.iter().map(|w| w.to_string()).collect()
}

fn grams(gs: &[&[&str]]) -> Vec<Vec<String>> {
    gs.iter().map(|g| gram(g)).collect()
}

#[test]
fn tests_test_padding() {
    let sent = words("Mary had a little lamb");

    let output = pad_items(&sent, 3, Some("<s>"), Some("</s>")).unwrap();
    let expected = gram(&[
        "<s>", "<s>", "Mary", "had", "a", "little", "lamb", "</s>", "</s>",
    ]);
    assert_eq!(output, expected);

    let output = pad_items(&sent, 2, Some("<s>"), None).unwrap();
    let expected = gram(&["<s>", "Mary", "had", "a", "little", "lamb"]);
    assert_eq!(output, expected);

    let output = pad_items(&sent, 2, None, Some("</s>")).unwrap();
    let expected = gram(&["Mary", "had", "a", "little", "lamb", "</s>"]);
    assert_eq!(output, expected);
}

#[test]
fn tests_test_bigram() {
    let sent = words("Mary had a little lamb");

    let output = bigram(&sent, None, None).unwrap();
    let expected = grams(&[
        &["Mary", "had"],
        &["had", "a"],
        &["a", "little"],
        &["little", "lamb"],
    ]);
    assert_eq!(output, expected);
}

#[test]
fn tests_test_trigram() {
    let sent = words("Mary had a little lamb");

    let output = ngrams(&sent, 3, Some("<s>"), Some("</s>")).unwrap();
    let expected = grams(&[
        &["<s>", "<s>", "Mary"],
        &["<s>", "Mary", "had"],
        &["Mary", "had", "a"],
        &["had", "a", "little"],
        &["a", "little", "lamb"],
        &["little", "lamb", "</s>"],
        &["lamb", "</s>", "</s>"],
    ]);
    assert_eq!(output, expected);

    let output = ngrams(&sent, 3, None, Some("</s>")).unwrap();
    let expected = grams(&[
        &["Mary", "had", "a"],
        &["had", "a", "little"],
        &["a", "little", "lamb"],
        &["little", "lamb", "</s>"],
        &["lamb", "</s>", "</s>"],
    ]);
    assert_eq!(output, expected);
}

#[test]
fn tests_test_ngrams() {
    let sent = words("Mary had a little lamb");

    let output = ngrams(&sent, 4, Some("<s>"), Some("</s>")).unwrap();
    let expected = grams(&[
        &["<s>", "<s>", "<s>", "Mary"],
        &["<s>", "<s>", "Mary", "had"],
        &["<s>", "Mary", "had", "a"],
        &["Mary", "had", "a", "little"],
        &["had", "a", "little", "lamb"],
        &["a", "little", "lamb", "</s>"],
        &["little", "lamb", "</s>", "</s>"],
        &["lamb", "</s>", "</s>", "</s>"],
    ]);
    assert_eq!(output, expected);
}

#[test]
fn tests_test_everygram() {
    let sent = words("Mary had a little lamb");

    let output = everygrams(&sent, 1, 3, Some("<s>"), Some("</s>")).unwrap();
    let expected = grams(&[
        &["<s>", "Mary"],
        &["<s>", "<s>", "Mary"],
        &["<s>", "Mary", "had"],
        &["Mary"],
        &["Mary", "had"],
        &["Mary", "had", "a"],
        &["had"],
        &["had", "a"],
        &["had", "a", "little"],
        &["a"],
        &["a", "little"],
        &["a", "little", "lamb"],
        &["little"],
        &["little", "lamb"],
        &["lamb"],
        &["lamb", "</s>"],
        &["little", "lamb", "</s>"],
        &["lamb", "</s>", "</s>"],
    ]);
    assert_eq!(output, expected);
}

#[test]
fn tests_test_skipgram() {
    let sent = words("Mary had a little lamb");

    let output = skipgrams(&sent, 2, 1, Some("<s>"), Some("</s>")).unwrap();
    let expected = grams(&[
        &["<s>", "Mary"],
        &["<s>", "had"],
        &["Mary", "had"],
        &["Mary", "a"],
        &["had", "a"],
        &["had", "little"],
        &["a", "little"],
        &["a", "lamb"],
        &["little", "lamb"],
        &["lamb", "</s>"],
        &["little", "</s>"],
    ]);
    assert_eq!(output, expected);

    let output = skipgrams(&sent, 3, 1, Some("<s>"), Some("</s>")).unwrap();
    let expected = grams(&[
        &["<s>", "<s>", "Mary"],
        &["<s>", "<s>", "had"],
        &["<s>", "Mary", "had"],
        &["<s>", "Mary", "a"],
        &["<s>", "had", "a"],
        &["Mary", "had", "a"],
        &["Mary", "had", "little"],
        &["Mary", "a", "little"],
        &["had", "a", "little"],
        &["had", "a", "lamb"],
        &["had", "little", "lamb"],
        &["a", "little", "lamb"],
        &["little", "lamb", "</s>"],
        &["a", "lamb", "</s>"],
        &["a", "little", "</s>"],
        &["lamb", "</s>", "</s>"],
        &["little", "</s>", "</s>"],
    ]);
    assert_eq!(output, expected);
}

#[test]
fn tests_test_skipgram_everygram() {
    let sent = words("Mary had a little lamb");

    let output = build_k_skip_n_grams(&sent, 2, 3, 1, Some("<s>"), Some("</s>")).unwrap();
    let output_set: HashSet<Vec<String>> = output.iter().cloned().collect();

    let output_sg_2 = skipgrams(&sent, 2, 1, Some("<s>"), Some("</s>")).unwrap();
    let output_sg_2_set: HashSet<Vec<String>> = output_sg_2.iter().cloned().collect();

    let output_sg_3 = skipgrams(&sent, 3, 1, Some("<s>"), Some("</s>")).unwrap();
    let output_sg_3_set: HashSet<Vec<String>> = output_sg_3.iter().cloned().collect();

    let expected_set: HashSet<Vec<String>> = output_sg_2_set
        .union(&output_sg_3_set)
        .cloned()
        .collect();

    assert_eq!(output_set, expected_set);
    assert_eq!(output.len(), output_sg_2.len() + output_sg_3.len());
}

#[test]
fn tests_test_ngram_edge_cases() {
    let sent = words("Mary had a little lamb");

    let output = build_k_skip_n_grams(&sent, 1, 1, 0, Some("<s>"), Some("</s>")).unwrap();
    let expected = grams(&[&["Mary"], &["had"], &["a"], &["little"], &["lamb"]]);
    assert_eq!(output, expected);

    let output = build_k_skip_n_grams(&sent, 1, 1, 1, Some("<s>"), Some("</s>")).unwrap();
    assert_eq!(output, expected);
}

#[test]
fn tests_test_sample_combinations() {
    let output = SampleCombinations::new(false, 3, 3).unwrap().collect_all();
    let expected = vec![vec![0, 1, 2], vec![0, 1, 3], vec![0, 2, 3], vec![1, 2, 3]];
    assert_eq!(output, expected);

    let output = SampleCombinations::new(true, 3, 3).unwrap().collect_all();
    let expected = vec![vec![0, 1, 2], vec![0, 1, 3], vec![0, 2, 3]];
    assert_eq!(output, expected);

    let output = SampleCombinations::new(true, 4, 3).unwrap().collect_all();
    let expected = vec![
        vec![0, 1, 2],
        vec![0, 1, 3],
        vec![0, 1, 4],
        vec![0, 2, 3],
        vec![0, 2, 4],
        vec![0, 3, 4],
    ];
    assert_eq!(output, expected);

    let output = SampleCombinations::new(false, 1, 2).unwrap().collect_all();
    let expected = vec![vec![0, 1]];
    assert_eq!(output, expected);

    let output = SampleCombinations::new(true, 1, 2).unwrap().collect_all();
    let expected = vec![vec![0, 1]];
    assert_eq!(output, expected);

    let output = SampleCombinations::new(true, 2, 3).unwrap().collect_all();
    let expected = vec![vec![0, 1, 2]];
    assert_eq!(output, expected);

    let output = SampleCombinations::new(false, 0, 1).unwrap().collect_all();
    let expected = vec![vec![0]];
    assert_eq!(output, expected);

    let output = SampleCombinations::new(true, 0, 1).unwrap().collect_all();
    let expected = vec![vec![0]];
    assert_eq!(output, expected);
}

#[test]
fn test_padding() {
    let sent = words("Mary had a little lamb");

    let output = pad_items(&sent, 3, Some("<s>"), Some("</s>")).unwrap();
    let expected = gram(&[
        "<s>", "<s>", "Mary", "had", "a", "little", "lamb", "</s>", "</s>",
    ]);
    assert_eq!(output, expected);
}

#[test]
fn test_sample_combinations() {
    let output = SampleCombinations::new(false, 3, 3).unwrap().collect_all();
    let expected = vec![vec![0, 1, 2], vec![0, 1, 3], vec![0, 2, 3], vec![1, 2, 3]];
    assert_eq!(output, expected);

    let output = SampleCombinations::new(true, 3, 3).unwrap().collect_all();
    let expected = vec![vec![0, 1, 2], vec![0, 1, 3], vec![0, 2, 3]];
    assert_eq!(output, expected);

    let output = SampleCombinations::new(false, 1, 2).unwrap().collect_all();
    let expected = vec![vec![0, 1]];
    assert_eq!(output, expected);

    let output = SampleCombinations::new(true, 1, 2).unwrap().collect_all();
    let expected = vec![vec![0, 1]];
    assert_eq!(output, expected);

    let output = SampleCombinations::new(true, 2, 3).unwrap().collect_all();
    let expected = vec![vec![0, 1, 2]];
    assert_eq!(output, expected);

    let output = SampleCombinations::new(false, 0, 1).unwrap().collect_all();
    let expected = vec![vec![0]];
    assert_eq!(output, expected);

    let output = SampleCombinations::new(true, 0, 1).unwrap().collect_all();
    let expected = vec![vec![0]];
    assert_eq!(output, expected);
}

#[test]
fn test_sample_combinations_invalid() {
    assert!(SampleCombinations::new(false, 1, 3).is_err());
}

#[test]
fn test_sample_combinations_next() {
    let mut sc = SampleCombinations::new(false, 2, 2).unwrap();
    assert_eq!(sc.next(), Some(vec![0, 1]));
    assert_eq!(sc.next(), Some(vec![0, 2]));
    assert_eq!(sc.next(), Some(vec![1, 2]));
    assert_eq!(sc.next(), None);
    assert_eq!(sc.next(), None);

    let mut empty = SampleCombinations::new_empty();
    assert_eq!(empty.next(), None);
}

#[test]
fn test_ngram_errors() {
    let sent = words("Mary had a little lamb");

    let err = build_k_skip_n_grams(&sent, 0, 2, 0, None, None).unwrap_err();
    assert!(matches!(err, vtext::errors::EstimatorErr::InvalidParams(_)));

    let err = build_k_skip_n_grams(&sent, 3, 2, 0, None, None).unwrap_err();
    assert!(matches!(err, vtext::errors::EstimatorErr::InvalidParams(_)));

    let short = words("one two");
    let err = build_k_skip_n_grams(&short, 3, 3, 0, None, None).unwrap_err();
    assert!(matches!(err, vtext::errors::EstimatorErr::InvalidInput(_)));

    let err = build_k_skip_n_grams(&short, 2, 2, 1, None, None).unwrap_err();
    assert!(matches!(err, vtext::errors::EstimatorErr::InvalidInput(_)));
}

#[test]
fn test_ngram_iter_next() {
    let sent = words("one two three");
    let mut it =
        vtext::ngram_utils::KSkipNGramsIter::new(&sent, 2, 2, 0, None, None).unwrap();
    assert_eq!(it.next(), Some(gram(&["one", "two"])));
    assert_eq!(it.next(), Some(gram(&["two", "three"])));
    assert_eq!(it.next(), None);
}

#[test]
fn test_kskipngrams_struct_api() {
    let sent = words("One Two Three Four");
    let g = vtext::ngram_utils::KSkipNGrams::new_bigram()
        .transform(&sent, None, None)
        .unwrap();
    assert_eq!(
        g,
        grams(&[&["One", "Two"], &["Two", "Three"], &["Three", "Four"]])
    );

    let g = vtext::ngram_utils::KSkipNGrams::new(2, 3, 1)
        .transform(&sent, None, None)
        .unwrap();
    assert_eq!(
        g,
        grams(&[
            &["One", "Two"],
            &["One", "Three"],
            &["One", "Two", "Three"],
            &["One", "Two", "Four"],
            &["One", "Three", "Four"],
            &["Two", "Three"],
            &["Two", "Four"],
            &["Two", "Three", "Four"],
            &["Three", "Four"],
        ])
    );
}

#[test]
fn test_window_counts() {
    // Plain n-grams over L tokens give L - n + 1 windows; padding on
    // both sides adds n - 1 windows at each end.
    let sent = words("a b c d e f g");
    for n in 1..=5usize {
        let plain = ngrams(&sent, n, None, None).unwrap();
        assert_eq!(plain.len(), sent.len() - n + 1);
        let padded = ngrams(&sent, n, Some("<s>"), Some("</s>")).unwrap();
        assert_eq!(padded.len(), sent.len() - n + 1 + 2 * (n - 1));
    }
}
