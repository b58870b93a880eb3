use vtext::errors::EstimatorErr;
use vtext::math::CSRArray;
use vtext::tokenize::{RegexpTokenizerParams, RegexpTokenizer};
use vtext::vectorize::{CountVectorizer, CountVectorizerParams, HashingVectorizer};

fn docs(ds: &[&str]) -> Vec<String> {
    ds.iter().map(|d| d.to_string()).collect()
}

fn word_tokenizer() -> RegexpTokenizer {
    RegexpTokenizerParams::default().build().unwrap()
}

fn to_dense(m: &CSRArray, n_cols: usize) -> Vec<Vec<i32>> {
    let mut rows = Vec::new();
    for r in 0..m.indptr.len() - 1 {
        let mut row = vec![0i32; n_cols];
        for k in m.indptr[r]..m.indptr[r + 1] {
            row[m.indices[k]] += m.data[k];
        }
        rows.push(row);
    }
    rows
}

fn check_csr_invariants(m: &CSRArray, n_rows: usize) {
    assert_eq!(m.indptr.len(), n_rows + 1);
    assert_eq!(m.indptr[0], 0);
    assert_eq!(*m.indptr.last().unwrap(), m.indices.len());
    assert_eq!(m.indices.len(), m.data.len());
    for r in 0..n_rows {
        assert!(m.indptr[r] <= m.indptr[r + 1]);
        let row = &m.indices[m.indptr[r]..m.indptr[r + 1]];
        for w in row.windows(2) {
            assert!(w[0] < w[1]);
        }
        for k in m.indptr[r]..m.indptr[r + 1] {
            assert!(m.data[k] >= 1);
        }
    }
}

#[test]
fn test_count_vectorizer_scenario() {
    let documents = docs(&["the moon in the sky", "The sky sky sky is blue"]);

    let mut vect = CountVectorizer::new(word_tokenizer());
    let x = vect.fit_transform(&documents);

    let entries = vect.vocabulary.entries();
    let names: Vec<(String, usize)> = vec![
        ("blue".to_string(), 0),
        ("in".to_string(), 1),
        ("is".to_string(), 2),
        ("moon".to_string(), 3),
        ("sky".to_string(), 4),
        ("the".to_string(), 5),
    ];
    assert_eq!(entries, names);

    check_csr_invariants(&x, 2);
    let dense = to_dense(&x, vect.n_features());
    assert_eq!(dense, vec![vec![0, 1, 0, 1, 1, 2], vec![1, 0, 1, 0, 3, 1]]);

    // fit followed by transform ends in the same matrix
    let mut vect2 = CountVectorizer::new(word_tokenizer());
    vect2.fit(&documents);
    let x2 = vect2.transform(&documents);
    assert_eq!(x.indptr, x2.indptr);
    assert_eq!(x.indices, x2.indices);
    assert_eq!(x.data, x2.data);
    assert_eq!(vect.vocabulary.entries(), vect2.vocabulary.entries());
}

#[test]
fn test_count_vectorizer_single_doc() {
    let documents = docs(&["cat dog cat"]);

    let mut vect = CountVectorizer::new(word_tokenizer());
    let x = vect.fit_transform(&documents);

    assert_eq!(x.indptr, vec![0, 2]);
    assert_eq!(x.indices, vec![0, 1]);
    assert_eq!(x.data, vec![2, 1]);
    assert_eq!(to_dense(&x, 2), vec![vec![2, 1]]);
}

#[test]
fn test_empty_document_row() {
    let documents = docs(&["some tokens", "", "more words here"]);

    let mut vect = CountVectorizer::new(word_tokenizer());
    let x = vect.fit_transform(&documents);
    check_csr_invariants(&x, 3);
    // the empty document keeps its row: the row range is empty, the row
    // itself is not dropped
    assert_eq!(x.indptr[1], x.indptr[2]);
    assert_eq!(x.indptr.len(), 4);

    let v = HashingVectorizer::new(word_tokenizer());
    let h = v.transform(&documents);
    check_csr_invariants(&h, 3);
    assert_eq!(h.indptr[1], h.indptr[2]);
}

#[test]
fn test_empty_dataset() {
    let documents: Vec<String> = vec![];

    let mut vect = CountVectorizer::new(word_tokenizer());
    let x = vect.fit_transform(&documents);
    assert_eq!(x.data, Vec::<i32>::new());
    assert_eq!(x.indices, Vec::<usize>::new());
    assert_eq!(x.indptr, vec![0]);

    let vect = HashingVectorizer::new(word_tokenizer());
    let x = vect.fit_transform(&documents);
    assert_eq!(x.data, Vec::<i32>::new());
    assert_eq!(x.indices, Vec::<usize>::new());
    assert_eq!(x.indptr, vec![0]);
}

#[test]
fn test_fit_n_jobs_equivalence() {
    let documents = docs(&[
        "the moon in the sky",
        "The sky sky sky is blue",
        "a cow jumped over the moon",
        "the dish ran away with the spoon",
        "hey diddle diddle",
    ]);

    let mut v1 = CountVectorizerParams::default()
        .tokenizer(word_tokenizer())
        .n_jobs(1)
        .build()
        .unwrap();
    v1.fit(&documents);

    let mut v4 = CountVectorizerParams::default()
        .tokenizer(word_tokenizer())
        .n_jobs(4)
        .build()
        .unwrap();
    v4.fit(&documents);

    assert_eq!(v1.vocabulary.entries(), v4.vocabulary.entries());
}

#[test]
fn test_build_rejects_zero_jobs() {
    let r = CountVectorizerParams::default()
        .tokenizer(word_tokenizer())
        .n_jobs(0)
        .build();
    assert!(matches!(r, Err(EstimatorErr::InvalidParams(_))));
}

#[test]
fn test_out_of_vocabulary_tokens_dropped() {
    let train = docs(&["cat dog"]);
    let test = docs(&["cat bird bird dog cat"]);

    let mut vect = CountVectorizer::new(word_tokenizer());
    vect.fit(&train);
    let x = vect.transform(&test);
    // bird is unknown: only cat (2) and dog (1) count
    assert_eq!(to_dense(&x, 2), vec![vec![2, 1]]);
}

#[test]
fn test_hashing_vectorizer_basic() {
    let documents = docs(&["the moon in the sky", "The sky is blue"]);

    let vect = HashingVectorizer::new(word_tokenizer());
    let vect = vect.fit(&documents);
    let x = vect.transform(&documents);

    // row boundaries: four distinct tokens per document
    assert_eq!(x.indptr, vec![0, 4, 8]);
    // counts per row: "the" twice in the first document
    let row0: Vec<i32> = x.data[0..4].to_vec();
    assert_eq!(row0.iter().sum::<i32>(), 5);
    assert_eq!(*row0.iter().max().unwrap(), 2);
    let row1: Vec<i32> = x.data[4..8].to_vec();
    assert_eq!(row1.iter().sum::<i32>(), 4);
    check_csr_invariants(&x, 2);
    for &c in x.indices.iter() {
        assert!(c < 1048576);
    }

    // transforming again gives the identical matrix
    let x2 = vect.fit_transform(&documents);
    assert_eq!(x.indptr, x2.indptr);
    assert_eq!(x.indices, x2.indices);
    assert_eq!(x.data, x2.data);

    // the same token hashes to the same column across documents
    let the_col = {
        let single = vect.transform(&docs(&["the"]));
        single.indices[0]
    };
    assert!(x.indices[0..4].contains(&the_col));
    assert!(x.indices[4..8].contains(&the_col));
}

#[test]
fn test_vocabulary_queries() {
    let documents = docs(&["b a c a"]);
    let mut vect = CountVectorizer::new(word_tokenizer());
    vect.fit(&documents);
    assert_eq!(vect.n_features(), 0);

    // the default pattern keeps only tokens of two or more characters,
    // so use longer words
    let documents = docs(&["bb aa cc aa"]);
    vect.fit(&documents);
    assert_eq!(vect.n_features(), 3);
    let entries = vect.vocabulary.entries();
    assert_eq!(
        entries,
        vec![
            ("aa".to_string(), 0),
            ("bb".to_string(), 1),
            ("cc".to_string(), 2),
        ]
    );
}

#[test]
fn test_lowercase_toggle() {
    let documents = docs(&["Cat CAT cat"]);

    let mut folded = CountVectorizerParams::default()
        .tokenizer(word_tokenizer())
        .lowercase(true)
        .build()
        .unwrap();
    let x = folded.fit_transform(&documents);
    assert_eq!(folded.n_features(), 1);
    assert_eq!(x.data, vec![3]);

    let mut kept = CountVectorizerParams::default()
        .tokenizer(word_tokenizer())
        .lowercase(false)
        .build()
        .unwrap();
    let y = kept.fit_transform(&documents);
    assert_eq!(kept.n_features(), 3);
    assert_eq!(y.data, vec![1, 1, 1]);
}

#[test]
fn test_vocabulary_push_and_lookup() {
    let mut vocab = vtext::vectorize::Vocabulary::new();
    vocab.push_token(vec!['c', 'a', 't']);
    vocab.push_token(vec!['d', 'o', 'g']);
    assert_eq!(vocab.len(), 2);
    assert_eq!(vocab.get_id(&vec!['d', 'o', 'g']), Some(1));
    assert_eq!(vocab.get_id(&vec!['c', 'o', 'w']), None);
    assert_eq!(vocab.token_at(0), "cat".to_string());

    let mut vect = CountVectorizer::with_params_and_vocabulary(
        CountVectorizerParams::default().tokenizer(word_tokenizer()),
        vocab,
    );
    let x = vect.transform(&docs(&["dog cat dog cow"]));
    assert_eq!(to_dense(&x, 2), vec![vec![1, 2]]);
}
