use bert_tokenizer::{
    assemble, assemble_dialogue, encode_pair, encode_single, fit_context, get_attention_mask,
    get_input_ids, get_token_type_ids, join_context, truncate_pair, FullTokenizer, TokenizerError,
    CONTEXT_SEP,
};

fn listing() -> Vec<String> {
    [
        "[PAD]", "[UNK]", "[CLS]", "[SEP]", "[MASK]", "a", "b", "c", "d", "e", "f", "g", "h",
    ]
    .iter()
    .map(|s| s.to_string())
    .collect()
}

#[test]
fn assemble_lays_out_two_segments() {
    let e = assemble(&vec![7, 8, 9], &vec![4, 5], -1, 8).unwrap();
    assert_eq!(e.input_ids, vec![7, 8, 9, 4, 5, -1, -1, -1]);
    assert_eq!(e.segment_ids, vec![0, 0, 0, 1, 1, 0, 0, 0]);
    assert_eq!(e.attention_mask, vec![1, 1, 1, 1, 1, 0, 0, 0]);
    assert_eq!(e.real_len, 5);
    assert_eq!(get_input_ids(&e), &vec![7, 8, 9, 4, 5, -1, -1, -1]);
    assert_eq!(get_token_type_ids(&e), &vec![0, 0, 0, 1, 1, 0, 0, 0]);
    assert_eq!(get_attention_mask(&e), &vec![1, 1, 1, 1, 1, 0, 0, 0]);
}

#[test]
fn assemble_fills_exactly_or_fails() {
    let e = assemble(&vec![7, 8], &vec![4], 0, 3).unwrap();
    assert_eq!(e.input_ids, vec![7, 8, 4]);
    assert_eq!(e.segment_ids, vec![0, 0, 1]);
    assert_eq!(e.attention_mask, vec![1, 1, 1]);
    assert!(matches!(assemble(&vec![7, 8], &vec![4], 0, 2), Err(TokenizerError::SizeError)));
    let empty = assemble(&vec![], &vec![], 9, 2).unwrap();
    assert_eq!(empty.input_ids, vec![9, 9]);
    assert_eq!(empty.attention_mask, vec![0, 0]);
    assert_eq!(empty.real_len, 0);
}

#[test]
fn truncation_drops_from_the_longer_and_from_the_first_on_ties() {
    let mut a = vec![1, 2, 3, 4, 5];
    let mut b = vec![6, 7, 8];
    truncate_pair(&mut a, &mut b, 4);
    assert_eq!(a, vec![1, 2]);
    assert_eq!(b, vec![6, 7]);

    let mut a = vec![1, 2];
    let mut b = vec![6, 7];
    truncate_pair(&mut a, &mut b, 3);
    assert_eq!(a, vec![1]);
    assert_eq!(b, vec![6, 7]);

    let mut a = vec![1];
    let mut b = vec![6, 7, 8, 9];
    truncate_pair(&mut a, &mut b, 3);
    assert_eq!(a, vec![1]);
    assert_eq!(b, vec![6, 7]);

    let mut a = vec![1, 2];
    let mut b = vec![6];
    truncate_pair(&mut a, &mut b, 3);
    assert_eq!(a, vec![1, 2]);
    assert_eq!(b, vec![6]);

    let mut a = vec![1, 2];
    let mut b = vec![6];
    truncate_pair(&mut a, &mut b, 0);
    assert_eq!(a, Vec::<i32>::new());
    assert_eq!(b, Vec::<i32>::new());
}

#[test]
fn truncation_budget_holds() {
    for la in 0usize..7 {
        for lb in 0usize..7 {
            for budget in 0usize..10 {
                let mut a: Vec<usize> = (0..la).collect();
                let mut b: Vec<usize> = (0..lb).collect();
                truncate_pair(&mut a, &mut b, budget);
                assert!(a.len() + b.len() <= budget);
                assert_eq!(a.len() + b.len(), std::cmp::min(la + lb, budget));
                assert_eq!(a, (0..a.len()).collect::<Vec<usize>>());
                assert_eq!(b, (0..b.len()).collect::<Vec<usize>>());
            }
        }
    }
}

#[test]
fn encode_single_frames_and_truncates() {
    let e = encode_single(vec![5, 6, 7], 2, 3, 0, 8).unwrap();
    assert_eq!(e.input_ids, vec![2, 5, 6, 7, 3, 0, 0, 0]);
    assert_eq!(e.segment_ids, vec![0; 8]);
    assert_eq!(e.attention_mask, vec![1, 1, 1, 1, 1, 0, 0, 0]);
    assert_eq!(e.real_len, 5);

    let e = encode_single(vec![5, 6, 7, 8], 2, 3, 0, 4).unwrap();
    assert_eq!(e.input_ids, vec![2, 5, 6, 3]);
    assert_eq!(e.attention_mask, vec![1, 1, 1, 1]);
    assert_eq!(e.real_len, 4);

    assert!(matches!(encode_single(vec![5], 2, 3, 0, 2), Err(TokenizerError::SizeError)));
    assert!(matches!(encode_single(vec![], 2, 3, 0, 0), Err(TokenizerError::SizeError)));
    let e = encode_single(vec![], 2, 3, 0, 3).unwrap();
    assert_eq!(e.input_ids, vec![2, 3, 0]);
}

#[test]
fn encode_pair_marks_the_second_segment() {
    let e = encode_pair(vec![5, 6], vec![7, 8, 9], 2, 3, 0, 10).unwrap();
    assert_eq!(e.input_ids, vec![2, 5, 6, 3, 7, 8, 9, 3, 0, 0]);
    assert_eq!(e.segment_ids, vec![0, 0, 0, 0, 1, 1, 1, 1, 0, 0]);
    assert_eq!(e.attention_mask, vec![1, 1, 1, 1, 1, 1, 1, 1, 0, 0]);
    assert_eq!(e.real_len, 8);

    let e = encode_pair(vec![5, 6, 7, 8, 9], vec![10, 11, 12], 2, 3, 0, 7).unwrap();
    assert_eq!(e.input_ids, vec![2, 5, 6, 3, 10, 11, 3]);
    assert_eq!(e.segment_ids, vec![0, 0, 0, 0, 1, 1, 1]);
    assert_eq!(e.attention_mask, vec![1; 7]);

    let e = encode_pair(vec![5, 6], vec![7], 2, 3, 0, 3).unwrap();
    assert_eq!(e.input_ids, vec![2, 3, 3]);
    assert_eq!(e.segment_ids, vec![0, 0, 1]);
    assert!(matches!(encode_pair(vec![5], vec![7], 2, 3, 0, 2), Err(TokenizerError::SizeError)));
}

#[test]
fn the_first_one_follows_the_first_separator() {
    for la in 0usize..6 {
        for lb in 0usize..6 {
            for max in 3usize..12 {
                let a: Vec<i32> = (0..la as i32).map(|x| 10 + x).collect();
                let b: Vec<i32> = (0..lb as i32).map(|x| 20 + x).collect();
                let mut kept_a = a.clone();
                let mut kept_b = b.clone();
                truncate_pair(&mut kept_a, &mut kept_b, max - 3);
                let e = encode_pair(a, b, 2, 3, 0, max).unwrap();
                assert_eq!(e.input_ids.len(), max);
                assert_eq!(e.segment_ids.len(), max);
                assert_eq!(e.attention_mask.len(), max);
                let first_one = e.segment_ids.iter().position(|s| *s == 1).unwrap();
                assert_eq!(first_one, kept_a.len() + 2);
                assert_eq!(e.input_ids[first_one - 1], 3);
                assert_eq!(e.real_len, kept_a.len() + kept_b.len() + 3);
            }
        }
    }
}

#[test]
fn build_model_input_single() {
    let tokenizer = FullTokenizer::new(&listing(), true).unwrap();
    let e = tokenizer.build_model_input("a b zz", None, 8).unwrap();
    assert_eq!(e.input_ids, vec![2, 5, 6, 1, 3, 0, 0, 0]);
    assert_eq!(e.segment_ids, vec![0, 0, 0, 0, 0, 0, 0, 0]);
    assert_eq!(e.attention_mask, vec![1, 1, 1, 1, 1, 0, 0, 0]);
    assert_eq!(e.real_len, 5);

    let e = tokenizer.build_model_input("a b c d e", None, 5).unwrap();
    assert_eq!(e.input_ids, vec![2, 5, 6, 7, 3]);
    assert_eq!(e.real_len, 5);
}

#[test]
fn build_model_input_pair() {
    let tokenizer = FullTokenizer::new(&listing(), true).unwrap();
    let e = tokenizer.build_model_input("A b", Some("c d e"), 10).unwrap();
    assert_eq!(e.input_ids, vec![2, 5, 6, 3, 7, 8, 9, 3, 0, 0]);
    assert_eq!(e.segment_ids, vec![0, 0, 0, 0, 1, 1, 1, 1, 0, 0]);
    assert_eq!(e.attention_mask, vec![1, 1, 1, 1, 1, 1, 1, 1, 0, 0]);
    assert_eq!(e.real_len, 8);

    let e = tokenizer.build_model_input("a b c d e", Some("f g h"), 7).unwrap();
    assert_eq!(e.input_ids, vec![2, 5, 6, 3, 10, 11, 3]);
    assert_eq!(e.segment_ids, vec![0, 0, 0, 0, 1, 1, 1]);
    assert_eq!(e.real_len, 7);

    let e = tokenizer.build_model_input("", Some(""), 4).unwrap();
    assert_eq!(e.input_ids, vec![2, 3, 3, 0]);
    assert_eq!(e.segment_ids, vec![0, 0, 1, 0]);
    assert_eq!(e.attention_mask, vec![1, 1, 1, 0]);
}

#[test]
fn build_model_input_has_the_length_asked_for() {
    let tokenizer = FullTokenizer::new(&listing(), true).unwrap();
    for max in 3usize..20 {
        for b in [None, Some("f g h a b c")] {
            let e = tokenizer.build_model_input("a b c d e f g h", b, max).unwrap();
            assert_eq!(e.input_ids.len(), max);
            assert_eq!(e.segment_ids.len(), max);
            assert_eq!(e.attention_mask.len(), max);
            assert!(e.real_len <= max);
        }
    }
    for max in 0usize..3 {
        assert!(matches!(
            tokenizer.build_model_input("a", None, max),
            Err(TokenizerError::SizeError)
        ));
        assert!(matches!(
            tokenizer.build_model_input("a", Some("b"), max),
            Err(TokenizerError::SizeError)
        ));
    }
}

#[test]
fn padding_is_zero_without_a_pad_token() {
    let listing: Vec<String> =
        ["[CLS]", "[UNK]", "[SEP]", "a"].iter().map(|s| s.to_string()).collect();
    let tokenizer = FullTokenizer::new(&listing, true).unwrap();
    let e = tokenizer.build_model_input("a", None, 5).unwrap();
    assert_eq!(e.input_ids, vec![0, 3, 2, 0, 0]);
    assert_eq!(e.attention_mask, vec![1, 1, 1, 0, 0]);
}

#[test]
fn context_segments_are_joined_with_the_separator() {
    assert_eq!(CONTEXT_SEP, 99);
    assert_eq!(join_context(&vec![vec![1, 2], vec![], vec![3]], 99), vec![1, 2, 99, 99, 3, 99]);
    assert_eq!(join_context(&vec![], 99), Vec::<i32>::new());
    assert_eq!(join_context(&vec![vec![]], 7), vec![7]);
}

#[test]
fn fitting_keeps_the_tail_and_ends_with_the_boundary() {
    assert_eq!(fit_context(&vec![1, 2, 3, 4, 5], 3, 9), vec![3, 4, 9]);
    assert_eq!(fit_context(&vec![1, 2, 3], 3, 9), vec![1, 2, 9]);
    assert_eq!(fit_context(&vec![1, 2, 3], 5, 9), vec![1, 2, 9]);
    assert_eq!(fit_context(&vec![1, 2, 3], 1, 9), vec![9]);
    assert_eq!(fit_context(&vec![1, 2, 3], 0, 9), Vec::<i32>::new());
    assert_eq!(fit_context(&vec![], 4, 9), Vec::<i32>::new());
}

#[test]
fn dialogue_layout() {
    let e = assemble_dialogue(&vec![vec![10, 11], vec![12]], &vec![20, 21], 1, 2, 0, 10).unwrap();
    assert_eq!(e.input_ids, vec![1, 10, 11, 99, 12, 2, 20, 21, 0, 0]);
    assert_eq!(e.segment_ids, vec![0, 0, 0, 0, 0, 0, 1, 1, 0, 0]);
    assert_eq!(e.attention_mask, vec![1, 1, 1, 1, 1, 1, 1, 1, 0, 0]);
    assert_eq!(e.real_len, 8);

    let e = assemble_dialogue(&vec![vec![10, 11], vec![12]], &vec![20, 21], 1, 2, 0, 6).unwrap();
    assert_eq!(e.input_ids, vec![1, 99, 12, 2, 20, 21]);
    assert_eq!(e.segment_ids, vec![0, 0, 0, 0, 1, 1]);
    assert_eq!(e.attention_mask, vec![1; 6]);

    let e = assemble_dialogue(&vec![vec![10, 11]], &vec![20, 21], 1, 2, 0, 3).unwrap();
    assert_eq!(e.input_ids, vec![1, 20, 21]);
    assert_eq!(e.segment_ids, vec![0, 1, 1]);

    assert!(matches!(
        assemble_dialogue(&vec![vec![10]], &vec![20, 21], 1, 2, 0, 2),
        Err(TokenizerError::SizeError)
    ));
    assert!(matches!(
        assemble_dialogue(&vec![], &vec![], 1, 2, 0, 0),
        Err(TokenizerError::SizeError)
    ));
    let e = assemble_dialogue(&vec![], &vec![], 1, 2, 0, 2).unwrap();
    assert_eq!(e.input_ids, vec![1, 0]);
    assert_eq!(e.attention_mask, vec![1, 0]);
}
