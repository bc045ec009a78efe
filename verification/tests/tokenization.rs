use bert_tokenizer::{
    convert_ids_to_tokens, convert_tokens_to_ids, BasicTokenizer, FullTokenizer, TokenizerError,
    WordpieceTokenizer, _is_control, _is_punctuation, _is_whitespace,
};
use indexmap::IndexMap;

fn strings(items: &[&str]) -> Vec<String> {
    items.iter().map(|s| s.to_string()).collect()
}

fn sample_vocab_tokens() -> Vec<String> {
    strings(&[
        "[UNK]", "[CLS]", "[SEP]", "want", "##want", "##ed", "wa", "un", "runn", "##ing",
    ])
}

fn sample_maps() -> (IndexMap<String, usize>, IndexMap<usize, String>) {
    let mut vocab = IndexMap::new();
    let mut inv_vocab = IndexMap::new();
    for (i, token) in sample_vocab_tokens().iter().enumerate() {
        vocab.insert(token.to_string(), i);
        inv_vocab.insert(i, token.to_string());
    }
    (vocab, inv_vocab)
}

#[test]
fn test_is_punctuation() {
    assert!(_is_punctuation('-'));
    assert!(_is_punctuation('$'));
    assert!(_is_punctuation('`'));
    assert!(_is_punctuation('.'));

    assert!(!_is_punctuation('A'));
    assert!(!_is_punctuation(' '));
}

#[test]
fn test_is_control() {
    assert!(_is_control('\u{0005}'));

    assert!(!_is_control('A'));
    assert!(!_is_control(' '));
    assert!(!_is_control('\t'));
    assert!(!_is_control('\r'));
}

#[test]
fn test_is_whitespace() {
    assert!(' '.is_whitespace());
    assert!('\t'.is_whitespace());
    assert!('\r'.is_whitespace());
    assert!('\n'.is_whitespace());
    assert!('\u{00A0}'.is_whitespace());

    assert!(!'A'.is_whitespace());
    assert!(!'-'.is_whitespace());

    assert!(_is_whitespace(' '));
    assert!(_is_whitespace('\t'));
    assert!(_is_whitespace('\r'));
    assert!(_is_whitespace('\n'));
    assert!(_is_whitespace('\u{00A0}'));

    assert!(!_is_whitespace('A'));
    assert!(!_is_whitespace('-'));
}

#[test]
fn test_convert_tokens_to_ids() {
    let vocab_tokens = [
        "[UNK]", "[CLS]", "[SEP]", "want", "##want", "##ed", "wa", "un", "runn", "##ing",
    ];

    let mut vocab = IndexMap::new();
    for (i, token) in vocab_tokens.iter().enumerate() {
        vocab.insert(token.to_string(), i);
    }
    let tokens: Vec<String> = ["un", "##want", "##ed", "runn", "##ing"]
        .iter()
        .map(|s| s.to_string())
        .collect();

    let ids = convert_tokens_to_ids(&vocab, &tokens).unwrap();
    assert_eq!(ids, [7, 4, 5, 8, 9]);
}

#[test]
fn test_wordpiece_tokenizer() {
    let vocab_tokens = [
        "[UNK]", "[CLS]", "[SEP]", "want", "##want", "##ed", "wa", "un", "runn", "##ing",
    ];
    let mut vocab = IndexMap::new();
    let mut inv_vocab = IndexMap::new();
    for (i, token) in vocab_tokens.iter().enumerate() {
        vocab.insert(token.to_string(), i);
        inv_vocab.insert(i, token.to_string());
    }
    let tokenizer = WordpieceTokenizer::new(vocab, inv_vocab, "[UNK]", 100).unwrap();

    assert_eq!(tokenizer.tokenize("").len(), 0);

    {
        let expected: Vec<String> = ["un", "##want", "##ed", "runn", "##ing"]
            .iter()
            .map(|s| s.to_string())
            .collect();
        assert_eq!(tokenizer.tokenize("unwanted running"), expected);
    }

    {
        let expected: Vec<String> = ["[UNK]", "runn", "##ing"]
            .iter()
            .map(|s| s.to_string())
            .collect();
        assert_eq!(tokenizer.tokenize("unwantedX running"), expected);
    }
}

#[test]
fn test_basic_tokenizer_no_lower() {
    let tokenizer = BasicTokenizer::new(false);

    let expected: Vec<String> = ["HeLLo", "!", "how", "Are", "yoU", "?"]
        .iter()
        .map(|s| s.to_string())
        .collect();
    assert_eq!(tokenizer.tokenize(" \tHeLLo!how  \n Are yoU?  "), expected);
}

#[test]
fn test_basic_tokenizer_lower() {
    let tokenizer = BasicTokenizer::new(true);
    {
        let expected: Vec<String> = ["hello", "!", "how", "are", "you", "?"]
            .iter()
            .map(|s| s.to_string())
            .collect();
        assert_eq!(tokenizer.tokenize(" \tHeLLo!how  \n Are yoU?  "), expected);
    }
    {
        let expected: Vec<String> = vec!["hello".to_string()];
        assert_eq!(tokenizer.tokenize("H\u{00E9}llo"), expected);
    }
}

#[test]
fn test_chinese() {
    let tokenizer = BasicTokenizer::new(true);
    let expected: Vec<String> = ["ah", "\u{535A}", "\u{63A8}", "zz"]
        .iter()
        .map(|s| s.to_string())
        .collect();
    assert_eq!(tokenizer.tokenize("ah\u{535A}\u{63A8}zz"), expected);
}

#[test]
fn test_full_tokenizer() {}

#[test]
fn control_characters_are_the_category_cc() {
    for cp in 0u32..=0x10FFFF {
        if let Some(c) = char::from_u32(cp) {
            let expected = c != '\t' && c != '\n' && c != '\r' && c.is_control();
            assert_eq!(_is_control(c), expected, "U+{:04X}", cp);
        }
    }
}

#[test]
fn whitespace_is_the_white_space_property() {
    for cp in 0u32..=0x10FFFF {
        if let Some(c) = char::from_u32(cp) {
            assert_eq!(_is_whitespace(c), c.is_whitespace(), "U+{:04X}", cp);
        }
    }
}

#[test]
fn ascii_punctuation_ranges() {
    for cp in 0u32..128 {
        let c = char::from_u32(cp).unwrap();
        let in_ranges = (33..=47).contains(&cp)
            || (58..=64).contains(&cp)
            || (91..=96).contains(&cp)
            || (123..=126).contains(&cp);
        assert_eq!(_is_punctuation(c), in_ranges, "U+{:04X}", cp);
    }
}

#[test]
fn unicode_punctuation_is_split_off() {
    assert!(_is_punctuation('\u{3002}'));
    assert!(_is_punctuation('\u{2014}'));
    assert!(_is_punctuation('\u{00BF}'));
    assert!(!_is_punctuation('\u{00E9}'));
    let tokenizer = BasicTokenizer::new(false);
    assert_eq!(
        tokenizer.tokenize("caf\u{00E9}\u{2014}bar\u{00BF}"),
        strings(&["caf\u{00E9}", "\u{2014}", "bar", "\u{00BF}"])
    );
}

#[test]
fn chinese_char_ranges() {
    for cp in [0x4E00u32, 0x9FFF, 0x3400, 0x4DBF, 0x20000, 0x2A6DF, 0x2A700, 0x2B73F, 0x2B740,
        0x2B81F, 0x2B820, 0x2CEAF, 0xF900, 0xFAFF, 0x2F800, 0x2FA1F]
    {
        assert!(BasicTokenizer::_is_chinese_char(cp), "U+{:04X}", cp);
    }
    for cp in [0x4DFFu32, 0xA000, 0x33FF, 0x4DC0, 0x1FFFF, 0x2A6E0, 0x2CEB0, 0xF8FF, 0xFB00,
        0x2F7FF, 0x2FA20, 0x41, 0x3042, 0xAC00]
    {
        assert!(!BasicTokenizer::_is_chinese_char(cp), "U+{:04X}", cp);
    }
}

#[test]
fn clean_text_drops_and_maps() {
    let tokenizer = BasicTokenizer::new(false);
    let cleaned = tokenizer._clean_text("a\u{0}b\u{FFFD}c\u{7}d\te\u{A0}f\u{3000}g\u{85}h\nz");
    let expected: Vec<char> = "abcd e f gh z".chars().collect();
    assert_eq!(cleaned, expected);
}

#[test]
fn chinese_chars_get_spaces() {
    let tokenizer = BasicTokenizer::new(false);
    let input: Vec<char> = "a\u{535A}b".chars().collect();
    let expected: Vec<char> = "a \u{535A} b".chars().collect();
    assert_eq!(tokenizer._tokenize_chinese_chars(input), expected);
    assert_eq!(tokenizer._tokenize_chinese_chars(Vec::new()), Vec::<char>::new());
}

#[test]
fn chinese_chars_stand_alone_in_any_script() {
    for lower in [false, true] {
        let tokenizer = BasicTokenizer::new(lower);
        assert_eq!(
            tokenizer.tokenize("\u{535A}x\u{63A8}\u{3042}\u{20000}!\u{4E00}"),
            strings(&["\u{535A}", "x", "\u{63A8}", "\u{3042}", "\u{20000}", "!", "\u{4E00}"])
        );
    }
}

#[test]
fn folding_decomposes_compatibility_ideographs() {
    assert_eq!(BasicTokenizer::new(false).tokenize("a\u{F900}b"), strings(&["a", "\u{F900}", "b"]));
    assert_eq!(BasicTokenizer::new(true).tokenize("a\u{F900}b"), strings(&["a", "\u{8C48}", "b"]));
}

#[test]
fn strip_accents_decomposes_and_drops_marks() {
    assert_eq!(BasicTokenizer::_run_strip_accents("\u{00E9}"), "e");
    assert_eq!(BasicTokenizer::_run_strip_accents("a\u{0301}\u{00F1}o"), "ano");
    assert_eq!(BasicTokenizer::_run_strip_accents("\u{AC00}"), "\u{1100}\u{1161}");
    assert_eq!(BasicTokenizer::_run_strip_accents(""), "");
}

#[test]
fn split_on_punc_cuts_at_every_mark() {
    assert_eq!(BasicTokenizer::_run_split_on_punc("a,b"), strings(&["a", ",", "b"]));
    assert_eq!(BasicTokenizer::_run_split_on_punc("!!"), strings(&["!", "!"]));
    assert_eq!(BasicTokenizer::_run_split_on_punc("ab"), strings(&["ab"]));
    assert_eq!(BasicTokenizer::_run_split_on_punc(""), Vec::<String>::new());
    assert_eq!(
        BasicTokenizer::_run_split_on_punc("(x-y)z"),
        strings(&["(", "x", "-", "y", ")", "z"])
    );
}

#[test]
fn basic_tokenizer_edge_cases() {
    let tokenizer = BasicTokenizer::new(true);
    assert_eq!(tokenizer.tokenize(""), Vec::<String>::new());
    assert_eq!(tokenizer.tokenize(" \t\n "), Vec::<String>::new());
    assert_eq!(tokenizer.tokenize("\u{0}\u{FFFD}\u{1}"), Vec::<String>::new());
    assert_eq!(tokenizer.tokenize("\u{0301}"), Vec::<String>::new());
    assert_eq!(tokenizer.tokenize("\u{0130}STANBUL"), strings(&["istanbul"]));
    let keep = BasicTokenizer::new(false);
    assert_eq!(keep.tokenize("H\u{00E9}llo"), strings(&["H\u{00E9}llo"]));
    assert!(keep.do_lower_case == false && tokenizer.do_lower_case);
}

#[test]
fn tokenizing_twice_gives_the_same() {
    let tokenizer = FullTokenizer::new(&sample_vocab_tokens(), true).unwrap();
    let text = "UNwanted,running \u{535A} unwantedX";
    assert_eq!(tokenizer.tokenize(text), tokenizer.tokenize(text));
    assert_eq!(tokenizer.tokenize_to_ids(text), tokenizer.tokenize_to_ids(text));
    let basic = BasicTokenizer::new(true);
    assert_eq!(basic.tokenize(text), basic.tokenize(text));
}

#[test]
fn wordpiece_is_all_or_nothing() {
    let (vocab, inv_vocab) = sample_maps();
    let tokenizer = WordpieceTokenizer::new(vocab, inv_vocab, "[UNK]", 100).unwrap();
    assert_eq!(tokenizer.tokenize("unwantedX"), strings(&["[UNK]"]));
    assert_eq!(tokenizer.tokenize("Xunwanted"), strings(&["[UNK]"]));
    assert_eq!(tokenizer.tokenize("unXwanted"), strings(&["[UNK]"]));
    assert_eq!(tokenizer.tokenize_to_ids("unwantedX"), vec![0]);
    assert_eq!(tokenizer.tokenize_to_ids("unXwanted running"), vec![0, 8, 9]);
}

#[test]
fn wordpiece_takes_the_longest_match() {
    let (vocab, inv_vocab) = sample_maps();
    let tokenizer = WordpieceTokenizer::new(vocab, inv_vocab, "[UNK]", 100).unwrap();
    assert_eq!(tokenizer.tokenize("want"), strings(&["want"]));
    assert_eq!(tokenizer.tokenize("wanted"), strings(&["want", "##ed"]));
    assert_eq!(tokenizer.tokenize("wa"), strings(&["wa"]));
    assert_eq!(tokenizer.tokenize("wawant"), strings(&["wa", "##want"]));
    assert_eq!(tokenizer.tokenize("wantwant"), strings(&["want", "##want"]));
    assert_eq!(tokenizer.tokenize_to_ids("wantwant wa"), vec![3, 4, 6]);
}

#[test]
fn wordpiece_ids_are_the_ids_of_its_tokens() {
    let (vocab, inv_vocab) = sample_maps();
    let lookup = vocab.clone();
    let tokenizer = WordpieceTokenizer::new(vocab, inv_vocab, "[UNK]", 100).unwrap();
    for text in ["unwanted running", "unwantedX running", "", "wa  wanted\tun", "##ing"] {
        let tokens = tokenizer.tokenize(text);
        let ids: Vec<i32> = convert_tokens_to_ids(&lookup, &tokens)
            .unwrap()
            .iter()
            .map(|id| *id as i32)
            .collect();
        assert_eq!(tokenizer.tokenize_to_ids(text), ids);
    }
    assert_eq!(tokenizer.tokenize_to_ids("unwanted running"), vec![7, 4, 5, 8, 9]);
}

#[test]
fn wordpiece_long_words_are_unknown() {
    let (vocab, inv_vocab) = sample_maps();
    let tokenizer = WordpieceTokenizer::new(vocab, inv_vocab, "[UNK]", 4).unwrap();
    assert_eq!(tokenizer.tokenize("want"), strings(&["want"]));
    assert_eq!(tokenizer.tokenize("wanted"), strings(&["[UNK]"]));
    assert_eq!(tokenizer.tokenize_to_ids("wanted want"), vec![0, 3]);
    let (vocab, inv_vocab) = sample_maps();
    let none = WordpieceTokenizer::new(vocab, inv_vocab, "[UNK]", 0).unwrap();
    assert_eq!(none.tokenize("un wa"), strings(&["[UNK]", "[UNK]"]));
}

#[test]
fn wordpiece_counts_characters_not_bytes() {
    let mut vocab = IndexMap::new();
    let mut inv_vocab = IndexMap::new();
    for (i, token) in ["[UNK]", "\u{00E9}\u{00E9}", "##\u{00E9}"].iter().enumerate() {
        vocab.insert(token.to_string(), i);
        inv_vocab.insert(i, token.to_string());
    }
    let tokenizer = WordpieceTokenizer::new(vocab, inv_vocab, "[UNK]", 3).unwrap();
    assert_eq!(
        tokenizer.tokenize("\u{00E9}\u{00E9}\u{00E9}"),
        strings(&["\u{00E9}\u{00E9}", "##\u{00E9}"])
    );
    assert_eq!(tokenizer.tokenize("\u{00E9}\u{00E9}\u{00E9}\u{00E9}"), strings(&["[UNK]"]));
}

#[test]
fn wordpiece_needs_the_unknown_token() {
    let (vocab, inv_vocab) = sample_maps();
    let r = WordpieceTokenizer::new(vocab, inv_vocab, "[NONE]", 100);
    assert!(matches!(r, Err(TokenizerError::ConfigurationError)));
}

#[test]
fn conversion_reports_what_is_missing() {
    let (vocab, inv_vocab) = sample_maps();
    assert_eq!(
        convert_tokens_to_ids(&vocab, &strings(&["un", "nope"])),
        Err(TokenizerError::LookupError)
    );
    assert_eq!(convert_tokens_to_ids(&vocab, &[]), Ok(vec![]));
    assert_eq!(
        convert_ids_to_tokens(&inv_vocab, &[7, 4, 5]),
        Ok(strings(&["un", "##want", "##ed"]))
    );
    assert_eq!(convert_ids_to_tokens(&inv_vocab, &[7, 10]), Err(TokenizerError::LookupError));
    assert_eq!(convert_ids_to_tokens(&inv_vocab, &[]), Ok(vec![]));
}

#[test]
fn full_tokenizer_scenario() {
    let tokenizer = FullTokenizer::new(&sample_vocab_tokens(), true).unwrap();
    let tokens = tokenizer.tokenize("UNwanted,running");
    assert_eq!(tokens, strings(&["un", "##want", "##ed", "[UNK]", "runn", "##ing"]));
    assert_eq!(tokenizer.tokenize_to_ids("UNwanted,running"), vec![7, 4, 5, 0, 8, 9]);
    assert_eq!(tokenizer.convert_tokens_to_ids(&tokens), Ok(vec![7, 4, 5, 0, 8, 9]));
    assert_eq!(
        tokenizer.convert_ids_to_tokens(&[7, 4, 5, 0, 8, 9]),
        Ok(strings(&["un", "##want", "##ed", "[UNK]", "runn", "##ing"]))
    );

    let mut with_comma = sample_vocab_tokens();
    with_comma.push(",".to_string());
    let tokenizer = FullTokenizer::new(&with_comma, true).unwrap();
    assert_eq!(
        tokenizer.tokenize("UNwant\u{00E9}d,running"),
        strings(&["un", "##want", "##ed", ",", "runn", "##ing"])
    );
    assert_eq!(tokenizer.tokenize_to_ids("UNwant\u{00E9}d,running"), vec![7, 4, 5, 10, 8, 9]);
}

#[test]
fn full_tokenizer_keeps_case_when_asked() {
    let tokenizer = FullTokenizer::new(&sample_vocab_tokens(), false).unwrap();
    assert_eq!(
        tokenizer.tokenize("UNwanted running"),
        strings(&["[UNK]", "runn", "##ing"])
    );
}

#[test]
fn full_tokenizer_reserved_ids() {
    let tokenizer = FullTokenizer::new(&sample_vocab_tokens(), true).unwrap();
    assert_eq!(tokenizer.cls_token_id, 1);
    assert_eq!(tokenizer.sep_token_id, 2);
    assert_eq!(tokenizer.unk_token_id, 0);
    assert_eq!(tokenizer.pad_token_id, 0);
    assert_eq!(tokenizer.mask_token_id, None);

    let listing = strings(&["a", "[PAD]", "[UNK]", "[CLS]", "[SEP]", "[MASK]"]);
    let tokenizer = FullTokenizer::new(&listing, true).unwrap();
    assert_eq!(tokenizer.pad_token_id, 1);
    assert_eq!(tokenizer.unk_token_id, 2);
    assert_eq!(tokenizer.cls_token_id, 3);
    assert_eq!(tokenizer.sep_token_id, 4);
    assert_eq!(tokenizer.mask_token_id, Some(5));
}

#[test]
fn full_tokenizer_needs_the_reserved_tokens() {
    for missing in ["[CLS]", "[SEP]", "[UNK]"] {
        let listing: Vec<String> =
            sample_vocab_tokens().into_iter().filter(|t| t != missing).collect();
        let r = FullTokenizer::new(&listing, true);
        assert!(matches!(r, Err(TokenizerError::ConfigurationError)), "{}", missing);
    }
    assert!(matches!(
        FullTokenizer::new(&Vec::new(), false),
        Err(TokenizerError::ConfigurationError)
    ));
}

#[test]
fn a_repeated_token_has_its_last_position() {
    let listing = strings(&["[UNK]", "[CLS]", "[SEP]", "a", "b", "a"]);
    let (vocab, inv_vocab) = FullTokenizer::load_vocab(&listing).unwrap();
    assert_eq!(vocab.len(), 5);
    assert_eq!(inv_vocab.len(), 6);
    assert_eq!(convert_tokens_to_ids(&vocab, &strings(&["a", "b"])), Ok(vec![5, 4]));
    assert_eq!(convert_ids_to_tokens(&inv_vocab, &[3, 5]), Ok(strings(&["a", "a"])));
    let tokenizer = FullTokenizer::new(&listing, false).unwrap();
    assert_eq!(tokenizer.tokenize_to_ids("a b"), vec![5, 4]);
}
