use vtext::errors::EstimatorErr;
use vtext::token_processor::{StopWordFilterParams, TokenProcessor};
use vtext::tokenize::{
    CharacterTokenizer, NTLKWordTokenizer, RegexpTokenizerParams, UnicodeSegmentTokenizer,
    VTextTokenizerParams,
};
use vtext::tokenize_sentence::{PunctuationTokenizer, UnicodeSentenceTokenizer};
use vtext::tokenize::Tokenizer;

fn strs(ws: &[&str]) -> Vec<String> {
    ws.iter().map(|w| w.to_string()).collect()
}

#[test]
fn test_regexp_tokenizer() {
    let stop_words = vec!["and", "or"];
    let tokens = strs(&["Today", "and", "tomorrow"]);

    let filter = StopWordFilterParams::default()
        .stop_words(stop_words)
        .build()
        .unwrap();

    let tokens_out = filter.transform(&tokens);
    assert_eq!(tokens_out, strs(&["Today", "tomorrow"]));
}

#[test]
fn test_regexp_tokenizer_error() {
    let tokenizer = RegexpTokenizerParams::default().pattern("(").build();

    assert!(tokenizer.is_err());
    assert!(matches!(tokenizer, Err(EstimatorErr::RegexErr(_))));
}

#[test]
fn tokenize_test_unicode_tokenizer() {
    let s = "The quick (\"brown\") fox can't jump 32.3 feet, right?";

    let tokenizer = UnicodeSegmentTokenizer::new(false);
    let tokens = tokenizer.tokenize_list(s);
    assert_eq!(
        tokens,
        strs(&["The", "quick", "brown", "fox", "can't", "jump", "32.3", "feet", "right"])
    );

    let tokenizer = UnicodeSegmentTokenizer::new(true);
    let tokens = tokenizer.tokenize_list(s);
    assert_eq!(
        tokens,
        strs(&[
            "The", "quick", "(", "\"", "brown", "\"", ")", "fox", "can't", "jump", "32.3",
            "feet", ",", "right", "?",
        ])
    );
}

#[test]
fn test_vtext_tokenizer_fr() {
    let tokenizer = VTextTokenizerParams::default().lang("fr").build().unwrap();

    let tokens = tokenizer.tokenize_list("l'image");
    assert_eq!(tokens, strs(&["l'", "image"]));
}

#[test]
fn test_vtext_tokenizer_invalid_lang() {
    let tokenizer = VTextTokenizerParams::default()
        .lang("unknown")
        .build()
        .unwrap();
    assert_eq!(tokenizer.lang, "any");
}

#[test]
fn test_vtext_tokenizer_rules() {
    let tokenizer = VTextTokenizerParams::default().build().unwrap();

    for (s, expected) in [
        ("23.2 meters", vec!["23.2", "meters"]),
        ("11,2 m", vec!["11,2", "m"]),
        ("1 ..", vec!["1", ".."]),
        ("I ...", vec!["I", "..."]),
        (", o ! o", vec![",", "o", "!", "o"]),
        ("... ok.", vec!["...", "ok", "."]),
        ("porte-manteau", vec!["porte-manteau"]),
        ("name@domain.com", vec!["name@domain.com"]),
        ("1/2", vec!["1/2"]),
        ("and/or", vec!["and", "/", "or"]),
        ("8:30", vec!["8:30"]),
        ("B&B", vec!["B&B"]),
    ]
    .iter()
    {
        let tokens = tokenizer.tokenize_list(s);
        assert_eq!(&tokens, &strs(expected));
    }
}

#[test]
fn test_vtext_tokenizer_en_contractions() {
    let tokenizer = VTextTokenizerParams::default().build().unwrap();

    for (s, expected) in [
        ("We can't", vec!["We", "ca", "n't"]),
        ("it's", vec!["it", "'s"]),
        ("it\u{2019}s", vec!["it", "\u{2019}s"]),
    ]
    .iter()
    {
        let tokens = tokenizer.tokenize_list(s);
        assert_eq!(&tokens, &strs(expected));
    }
}

#[test]
fn test_character_tokenizer() {
    let s = "fox can't";

    let tokenizer = CharacterTokenizer::new(4);
    let tokens = tokenizer.tokenize_list(s);
    assert_eq!(tokens, strs(&["fox ", "ox c", "x ca", " can", "can'", "an't"]));

    let short = tokenizer.tokenize_list("ab");
    assert_eq!(short, strs(&["ab"]));

    let empty = tokenizer.tokenize_list("");
    assert!(empty.is_empty());
}

#[test]
fn test_character_tokenizer_params() {
    let t = vtext::tokenize::CharacterTokenizerParams::default()
        .window_size(3)
        .build()
        .unwrap();
    assert_eq!(t.tokenize_list("abcd"), strs(&["abc", "bcd"]));

    let err = vtext::tokenize::CharacterTokenizerParams::default()
        .window_size(0)
        .build();
    assert!(matches!(err, Err(EstimatorErr::InvalidParams(_))));
}

#[test]
fn test_unicode_sentence_tokenizer() {
    let s = "Here is one. Here is another? Bang!! This trailing text is one more";

    let tokenizer = UnicodeSentenceTokenizer::default();
    let tokens = tokenizer.tokenize_list(s);
    assert_eq!(
        tokens,
        strs(&[
            "Here is one. ",
            "Here is another? ",
            "Bang!! ",
            "This trailing text is one more",
        ])
    );
}

#[test]
fn test_punctuation_sentence_tokenizer() {
    let s = "Here is one. Here is another? Bang!! This trailing text is one more";

    let tokenizer = PunctuationTokenizer::default();
    let tokens = tokenizer.tokenize_list(s);
    assert_eq!(
        tokens,
        strs(&[
            "Here is one. ",
            "Here is another? ",
            "Bang!",
            "! ",
            "This trailing text is one more",
        ])
    );
}

#[test]
fn test_stop_word_filter_default() {
    let filter = vtext::token_processor::StopWordFilter::default();
    let tokens = strs(&["this", "word", "and", "that", "or", "other"]);
    assert_eq!(filter.transform(&tokens), strs(&["word", "that", "other"]));
}

#[test]
fn test_regexp_tokenizer_matches() {
    let s = "fox can't jump 32.3 feet, right?";

    let tokenizer = RegexpTokenizerParams::default().build().unwrap();
    let tokens = tokenizer.tokenize_list(s);
    assert_eq!(tokens, strs(&["fox", "can", "jump", "32", "feet", "right"]));
    assert_eq!(tokenizer.pattern(), "\\b\\w\\w+\\b");
}

#[test]
fn test_treebank_word_tokenizer() {
    let tokenizer = NTLKWordTokenizer::default();

    let s = "On a $50,000 mortgage of 30 years at 8 percent, the monthly payment would be $366.88.";
    let tokens = tokenizer.tokenize_list(s);
    assert_eq!(
        tokens,
        strs(&[
            "On", "a", "$", "50,000", "mortgage", "of", "30", "years", "at", "8", "percent",
            ",", "the", "monthly", "payment", "would", "be", "$", "366.88", ".",
        ])
    );

    let s = "\"We beat some pretty good teams to get here,\" Slocum said.";
    let tokens = tokenizer.tokenize_list(s);
    assert_eq!(
        tokens,
        strs(&[
            "``", "We", "beat", "some", "pretty", "good", "teams", "to", "get", "here", ",",
            "''", "Slocum", "said", ".",
        ])
    );

    let s = "I cannot cannot work under these conditions!";
    let tokens = tokenizer.tokenize_list(s);
    assert_eq!(
        tokens,
        strs(&[
            "I", "can", "not", "can", "not", "work", "under", "these", "conditions", "!",
        ])
    );

    let s = "The company spent $30,000,000 last year.";
    let tokens = tokenizer.tokenize_list(s);
    assert_eq!(
        tokens,
        strs(&["The", "company", "spent", "$", "30,000,000", "last", "year", "."])
    );

    let s = "The company spent 40.75% of its income last year.";
    let tokens = tokenizer.tokenize_list(s);
    assert_eq!(
        tokens,
        strs(&["The", "company", "spent", "40.75", "%", "of", "its", "income", "last", "year", "."])
    );

    let s = "He arrived at 3:00 pm.";
    let tokens = tokenizer.tokenize_list(s);
    assert_eq!(tokens, strs(&["He", "arrived", "at", "3:00", "pm", "."]));

    let s = "I bought these items: books, pencils, and pens.";
    let tokens = tokenizer.tokenize_list(s);
    assert_eq!(
        tokens,
        strs(&["I", "bought", "these", "items", ":", "books", ",", "pencils", ",", "and", "pens", "."])
    );

    let s = "Though there were 150, 100 of them were old.";
    let tokens = tokenizer.tokenize_list(s);
    assert_eq!(
        tokens,
        strs(&["Though", "there", "were", "150", ",", "100", "of", "them", "were", "old", "."])
    );

    let s = "There were 300,000, but that wasn't enough.";
    let tokens = tokenizer.tokenize_list(s);
    assert_eq!(
        tokens,
        strs(&["There", "were", "300,000", ",", "but", "that", "was", "n't", "enough", "."])
    );

    let s = "\u{00ab}Now that I can do.\u{00bb}";
    let tokens = tokenizer.tokenize_list(s);
    assert_eq!(
        tokens,
        strs(&["\u{00ab}", "Now", "that", "I", "can", "do", ".", "\u{00bb}"])
    );

    let s = "The unicode 201C and 201D \u{201c}LEFT(RIGHT) DOUBLE QUOTATION MARK\u{201d} is also OPEN_PUNCT and CLOSE_PUNCT.";
    let tokens = tokenizer.tokenize_list(s);
    assert_eq!(
        tokens,
        strs(&[
            "The", "unicode", "201C", "and", "201D", "\u{201c}", "LEFT", "(", "RIGHT", ")",
            "DOUBLE", "QUOTATION", "MARK", "\u{201d}", "is", "also", "OPEN_PUNCT", "and",
            "CLOSE_PUNCT", ".",
        ])
    );
}
