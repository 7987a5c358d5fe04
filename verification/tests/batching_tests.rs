use std::str::FromStr;

use onnx_http::batching::{
    build_padded_inputs, build_sub_batches, can_encode, samples_segmentation, expects_token_type_ids, first_embedding,
    limit_sequence_length, plan_batches, plan_embedding, reassemble, sort_indices_by_length,
    token_lengths, tokenize_batch, truncation_limit, try_plan_embedding, EmbedError,
    TokenEncoding, TruncationTooShort,
};
use onnx_http::download::{model_max_tokens, MAX_SEQUENCE_LENGTH};

fn enc(ids: &[u32]) -> TokenEncoding {
    TokenEncoding {
        ids: ids.to_vec(),
        attention_mask: vec![1; ids.len()],
        type_ids: vec![0; ids.len()],
    }
}

const TOKENIZER_JSON: &str = r#"{
  "version": "1.0",
  "truncation": null,
  "padding": null,
  "added_tokens": [],
  "normalizer": null,
  "pre_tokenizer": {"type": "Whitespace"},
  "post_processor": null,
  "decoder": null,
  "model": {"type": "WordLevel", "vocab": {"[UNK]": 0, "hello": 1, "world": 2}, "unk_token": "[UNK]"}
}"#;

fn tokenizer() -> tokenizers::Tokenizer {
    tokenizers::Tokenizer::from_str(TOKENIZER_JSON).expect("valid tokenizer")
}

#[test]
fn token_lengths_counts_ids() {
    let encs = vec![enc(&[1, 2, 3]), enc(&[]), enc(&[4])];
    assert_eq!(token_lengths(&encs), vec![3, 0, 1]);
}

#[test]
fn sort_is_stable_by_length() {
    assert_eq!(sort_indices_by_length(&vec![3, 1, 2, 1]), vec![1, 3, 2, 0]);
    assert_eq!(sort_indices_by_length(&vec![]), Vec::<usize>::new());
    assert_eq!(sort_indices_by_length(&vec![5, 5, 5]), vec![0, 1, 2]);
}

#[test]
fn sub_batches_split_at_more_than_twice_the_first() {
    // lengths in order: 1, 2, 3, 5, 10, 11
    let lens = vec![10, 1, 3, 2, 11, 5];
    let order = sort_indices_by_length(&lens);
    assert_eq!(order, vec![1, 3, 2, 5, 0, 4]);
    let groups = build_sub_batches(&order, &lens);
    assert_eq!(groups, vec![vec![1, 3], vec![2, 5], vec![0, 4]]);
    assert!(build_sub_batches(&vec![], &lens).is_empty());
}

#[test]
fn sub_batch_padding_bound_holds() {
    let lens = vec![4, 9, 1, 17, 8, 2, 2, 35, 16];
    let order = sort_indices_by_length(&lens);
    let groups = build_sub_batches(&order, &lens);
    let flat: Vec<usize> = groups.iter().flatten().copied().collect();
    assert_eq!(flat, order);
    for g in &groups {
        let min = g.iter().map(|&i| lens[i]).min().unwrap();
        let max = g.iter().map(|&i| lens[i]).max().unwrap();
        assert_eq!(min, lens[g[0]]);
        assert!(max <= 2 * min);
    }
}

#[test]
fn sub_batches_keep_zero_length_texts_together() {
    let lens = vec![0, 0, 1];
    let order = sort_indices_by_length(&lens);
    assert_eq!(build_sub_batches(&order, &lens), vec![vec![0, 1], vec![2]]);
}

#[test]
fn padded_inputs_are_row_major_and_zero_padded() {
    let encs = vec![
        TokenEncoding { ids: vec![7, 8], attention_mask: vec![1, 1], type_ids: vec![0, 1] },
        TokenEncoding { ids: vec![9], attention_mask: vec![1], type_ids: vec![3] },
    ];
    let p = build_padded_inputs(&encs, &vec![1, 0], 3);
    assert_eq!(p.batch_size, 2);
    assert_eq!(p.max_len, 3);
    assert_eq!(p.input_ids, vec![9, 0, 0, 7, 8, 0]);
    assert_eq!(p.attention_mask, vec![1, 0, 0, 1, 1, 0]);
    assert_eq!(p.token_type_ids, vec![3, 0, 0, 0, 1, 0]);
}

#[test]
fn padded_inputs_truncate_to_max_len() {
    let encs = vec![enc(&[1, 2, 3, 4])];
    let p = build_padded_inputs(&encs, &vec![0], 2);
    assert_eq!(p.input_ids, vec![1, 2]);
    assert_eq!(p.attention_mask, vec![1, 1]);
}

#[test]
fn plan_refuses_all_empty_batches() {
    assert_eq!(plan_batches(&vec![enc(&[]), enc(&[])]).unwrap_err(), EmbedError::EmptySequences);
    assert_eq!(plan_batches(&vec![]).unwrap_err(), EmbedError::EmptySequences);
}

#[test]
fn plan_refuses_inconsistent_encodings() {
    let bad = TokenEncoding { ids: vec![1, 2], attention_mask: vec![1], type_ids: vec![0, 0] };
    assert_eq!(plan_batches(&vec![enc(&[1]), bad]).unwrap_err(), EmbedError::MalformedEncoding);
}

#[test]
fn plan_orders_groups_and_pads() {
    let encs = vec![enc(&[1, 2, 3, 4, 5]), enc(&[6]), enc(&[7, 8])];
    let plan = plan_batches(&encs).unwrap();
    assert_eq!(plan.order, vec![1, 2, 0]);
    assert_eq!(plan.sub_batches, vec![vec![1, 2], vec![0]]);
    assert_eq!(plan.inputs.len(), 2);
    assert_eq!(plan.inputs[0].max_len, 2);
    assert_eq!(plan.inputs[0].input_ids, vec![6, 0, 7, 8]);
    assert_eq!(plan.inputs[0].attention_mask, vec![1, 0, 1, 1]);
    assert_eq!(plan.inputs[1].max_len, 5);
    assert_eq!(plan.inputs[1].input_ids, vec![1, 2, 3, 4, 5]);
}

#[test]
fn reassemble_restores_text_order() {
    let groups = vec![vec![1, 2], vec![0]];
    let outputs = vec![vec!["b", "c"], vec!["a"]];
    assert_eq!(reassemble(3, &groups, outputs), vec!["a", "b", "c"]);
}

#[test]
fn reassemble_skips_missing_outputs() {
    let groups = vec![vec![2, 0], vec![1]];
    let outputs = vec![vec!["c"], vec!["b"]];
    assert_eq!(reassemble(3, &groups, outputs), vec!["b", "c"]);
}

#[test]
fn plan_then_reassemble_is_identity_on_indices() {
    let lens = vec![4, 9, 1, 17, 8, 2, 2, 35, 16];
    let encs: Vec<TokenEncoding> = lens.iter().map(|&n| enc(&vec![1; n])).collect();
    let plan = plan_batches(&encs).unwrap();
    let outputs: Vec<Vec<usize>> = plan.sub_batches.clone();
    let restored = reassemble(lens.len(), &plan.sub_batches, outputs);
    assert_eq!(restored, (0..lens.len()).collect::<Vec<_>>());
}

#[test]
fn tokenize_batch_uses_the_tokenizer() {
    let tok = tokenizer();
    let texts = vec!["hello world".to_string(), "world".to_string(), "unknown".to_string()];
    let encs = tokenize_batch(&tok, &texts).unwrap();
    assert_eq!(encs.len(), 3);
    assert_eq!(encs[0].ids, vec![1, 2]);
    assert_eq!(encs[0].attention_mask, vec![1, 1]);
    assert_eq!(encs[0].type_ids, vec![0, 0]);
    assert_eq!(encs[1].ids, vec![2]);
    assert_eq!(encs[2].ids, vec![0]);
}

#[test]
fn plan_embedding_tokenizes_then_plans() {
    let tok = tokenizer();
    let texts = vec!["hello world hello".to_string(), "world".to_string()];
    let plan = plan_embedding(&tok, &texts).unwrap();
    assert_eq!(plan.order, vec![1, 0]);
    assert_eq!(plan.sub_batches, vec![vec![1], vec![0]]);
    assert_eq!(plan.inputs[0].input_ids, vec![2]);
    assert_eq!(plan.inputs[1].input_ids, vec![1, 2, 1]);
}

#[test]
fn plan_embedding_refuses_empty_input() {
    let tok = tokenizer();
    assert_eq!(plan_embedding(&tok, &vec![]).unwrap_err(), EmbedError::EmptySequences);
    assert_eq!(plan_embedding(&tok, &vec!["".to_string()]).unwrap_err(), EmbedError::EmptySequences);
}

#[test]
fn embed_error_messages() {
    assert_eq!(
        EmbedError::Tokenization("bad".to_string()).message(),
        "Tokenization failed: bad"
    );
    assert_eq!(EmbedError::EmptySequences.message(), "All inputs produced empty token sequences");
    assert_eq!(EmbedError::NoEmbedding.message(), "No embedding produced");
    assert_eq!(
        EmbedError::MalformedEncoding.message(),
        "Encoding has fewer mask values or type ids than token ids"
    );
    assert_eq!(EmbedError::TooLarge.message(), "Padded batch does not fit in memory");
}

#[test]
fn first_embedding_takes_the_first_result() {
    assert_eq!(first_embedding(vec![vec![1.5f32], vec![2.5]]).unwrap(), vec![1.5f32]);
    assert_eq!(first_embedding(Vec::<Vec<f32>>::new()).unwrap_err(), EmbedError::NoEmbedding);
}

const STRICT_TOKENIZER_JSON: &str = r#"{
  "version": "1.0",
  "truncation": null,
  "padding": null,
  "added_tokens": [],
  "normalizer": null,
  "pre_tokenizer": {"type": "Whitespace"},
  "post_processor": null,
  "decoder": null,
  "model": {"type": "WordLevel", "vocab": {"hello": 0}, "unk_token": "[UNK]"}
}"#;

#[test]
fn tokenizer_failures_are_reported() {
    let tok = tokenizers::Tokenizer::from_str(STRICT_TOKENIZER_JSON).unwrap();
    let texts = vec!["hello zzz".to_string()];
    let expected = tok.encode("hello zzz", true).unwrap_err().to_string();
    assert!(!expected.is_empty());
    match tokenize_batch(&tok, &texts) {
        Err(EmbedError::Tokenization(msg)) => assert_eq!(msg, expected),
        other => panic!("expected a tokenization error, got {:?}", other),
    }
    assert_eq!(
        plan_embedding(&tok, &texts).unwrap_err(),
        EmbedError::Tokenization(expected.clone())
    );
    assert_eq!(
        EmbedError::Tokenization(expected.clone()).message(),
        format!("Tokenization failed: {}", expected)
    );
}

#[test]
fn tokenize_empty_batch_gives_no_encodings() {
    let tok = tokenizer();
    assert_eq!(tokenize_batch(&tok, &vec![]).unwrap(), Vec::<TokenEncoding>::new());
}

#[test]
fn encodings_follow_the_texts_order() {
    let tok = tokenizer();
    let texts = vec!["world".to_string(), "hello hello hello".to_string(), "hello".to_string()];
    let encs = tokenize_batch(&tok, &texts).unwrap();
    let direct = tok.encode_batch(texts.clone(), true).unwrap();
    for (e, d) in encs.iter().zip(direct.iter()) {
        assert_eq!(e.ids, d.get_ids().to_vec());
        assert_eq!(e.attention_mask, d.get_attention_mask().to_vec());
        assert_eq!(e.type_ids, d.get_type_ids().to_vec());
    }
    let plan = plan_embedding(&tok, &texts).unwrap();
    assert_eq!(plan.order, vec![0, 2, 1]);
}

#[test]
fn sequence_length_is_limited_to_512_tokens() {
    let mut tok = tokenizer();
    let long = vec!["hello"; 600].join(" ");
    let texts = vec![long];
    assert_eq!(tokenize_batch(&tok, &texts).unwrap()[0].ids.len(), 600);
    assert_eq!(truncation_limit(&tok), None);
    assert_eq!(limit_sequence_length(&mut tok, MAX_SEQUENCE_LENGTH), Ok(()));
    assert_eq!(truncation_limit(&tok), Some(512));
    assert_eq!(tokenize_batch(&tok, &texts).unwrap()[0].ids.len(), 512);
}

#[test]
fn long_context_model_truncates_at_its_own_length() {
    let mut tok = tokenizer();
    let max_tokens = model_max_tokens(None, "bge-m3");
    assert_eq!(max_tokens, 8192);
    assert_eq!(limit_sequence_length(&mut tok, max_tokens), Ok(()));
    assert_eq!(truncation_limit(&tok), Some(8192));
    let medium = vec![vec!["hello"; 600].join(" ")];
    assert_eq!(tokenize_batch(&tok, &medium).unwrap()[0].ids.len(), 600);
    let long = vec![vec!["world"; 9000].join(" ")];
    assert_eq!(tokenize_batch(&tok, &long).unwrap()[0].ids.len(), 8192);
}

const BERT_TOKENIZER_JSON: &str = r#"{
  "version": "1.0",
  "truncation": null,
  "padding": null,
  "added_tokens": [],
  "normalizer": null,
  "pre_tokenizer": {"type": "Whitespace"},
  "post_processor": {"type": "BertProcessing", "sep": ["[SEP]", 4], "cls": ["[CLS]", 3]},
  "decoder": null,
  "model": {"type": "WordLevel", "vocab": {"[UNK]": 0, "hello": 1, "world": 2, "[CLS]": 3, "[SEP]": 4}, "unk_token": "[UNK]"}
}"#;

const SHORT_TRUNCATION_TOKENIZER_JSON: &str = r#"{
  "version": "1.0",
  "truncation": {"direction": "Right", "max_length": 1, "strategy": "LongestFirst", "stride": 0},
  "padding": null,
  "added_tokens": [],
  "normalizer": null,
  "pre_tokenizer": {"type": "Whitespace"},
  "post_processor": {"type": "BertProcessing", "sep": ["[SEP]", 4], "cls": ["[CLS]", 3]},
  "decoder": null,
  "model": {"type": "WordLevel", "vocab": {"[UNK]": 0, "hello": 1, "world": 2, "[CLS]": 3, "[SEP]": 4}, "unk_token": "[UNK]"}
}"#;

#[test]
fn truncation_counts_the_special_tokens() {
    let mut tok = tokenizers::Tokenizer::from_str(BERT_TOKENIZER_JSON).unwrap();
    assert_eq!(limit_sequence_length(&mut tok, 4), Ok(()));
    let texts = vec!["hello world hello world".to_string()];
    let encs = tokenize_batch(&tok, &texts).unwrap();
    assert_eq!(encs[0].ids, vec![3, 1, 2, 4]);
}

#[test]
fn truncation_shorter_than_the_special_tokens_is_refused() {
    let mut tok = tokenizers::Tokenizer::from_str(BERT_TOKENIZER_JSON).unwrap();
    assert_eq!(
        limit_sequence_length(&mut tok, 1),
        Err(TruncationTooShort { max_tokens: 1, special_tokens: 2 })
    );
    assert_eq!(truncation_limit(&tok), None);
    assert!(can_encode(&tok));
    assert_eq!(
        TruncationTooShort { max_tokens: 1, special_tokens: 2 }.message(),
        "truncation to 1 tokens leaves no room for the 2 special tokens that the tokenizer adds"
    );
}

#[test]
fn tokenizer_that_cannot_encode_is_not_used() {
    let tok = tokenizers::Tokenizer::from_str(SHORT_TRUNCATION_TOKENIZER_JSON).unwrap();
    assert_eq!(truncation_limit(&tok), Some(1));
    assert!(!can_encode(&tok));
    assert!(try_plan_embedding(&tok, &vec!["hello".to_string()]).is_none());
    let fine = tokenizer();
    let plan = try_plan_embedding(&fine, &vec!["hello world".to_string()]).unwrap().unwrap();
    assert_eq!(plan.inputs[0].input_ids, vec![1, 2]);
}

#[test]
fn token_type_ids_input_is_detected() {
    let bert = vec!["input_ids".to_string(), "attention_mask".to_string(), "token_type_ids".to_string()];
    let other = vec!["input_ids".to_string(), "attention_mask".to_string()];
    assert!(expects_token_type_ids(&bert));
    assert!(!expects_token_type_ids(&other));
    assert!(!expects_token_type_ids(&vec![]));
}

fn row_of(plan: &onnx_http::batching::BatchPlan, text: usize) -> (usize, Vec<i64>, Vec<i64>, Vec<i64>) {
    for (b, members) in plan.sub_batches.iter().enumerate() {
        for (j, &m) in members.iter().enumerate() {
            if m == text {
                let p = &plan.inputs[b];
                let w = p.max_len;
                return (
                    w,
                    p.input_ids[j * w..(j + 1) * w].to_vec(),
                    p.attention_mask[j * w..(j + 1) * w].to_vec(),
                    p.token_type_ids[j * w..(j + 1) * w].to_vec(),
                );
            }
        }
    }
    panic!("text {} is in no sub-batch", text);
}

#[test]
fn reordered_batch_gives_each_text_the_same_input_row() {
    let lens = [4usize, 9, 1, 17, 8, 2, 2, 35, 16];
    let encs1: Vec<TokenEncoding> = lens
        .iter()
        .enumerate()
        .map(|(i, &n)| enc(&vec![i as u32 + 1; n]))
        .collect();
    let p = [3usize, 8, 0, 5, 7, 1, 6, 2, 4];
    let encs2: Vec<TokenEncoding> = p.iter().map(|&i| encs1[i].clone()).collect();
    let plan1 = plan_batches(&encs1).unwrap();
    let plan2 = plan_batches(&encs2).unwrap();
    for k in 0..p.len() {
        assert_eq!(row_of(&plan2, k), row_of(&plan1, p[k]));
    }
}

#[test]
fn reordered_texts_are_planned_alike() {
    let tok = tokenizer();
    let texts1 = vec![
        "hello".to_string(),
        "hello world hello world hello".to_string(),
        "world world".to_string(),
    ];
    let texts2 = vec![texts1[2].clone(), texts1[0].clone(), texts1[1].clone()];
    let p = [2usize, 0, 1];
    let plan1 = plan_embedding(&tok, &texts1).unwrap();
    let plan2 = plan_embedding(&tok, &texts2).unwrap();
    for k in 0..p.len() {
        assert_eq!(row_of(&plan2, k), row_of(&plan1, p[k]));
    }
}

const DROPOUT_TOKENIZER_JSON: &str = r#"{
  "version": "1.0",
  "truncation": null,
  "padding": null,
  "added_tokens": [],
  "normalizer": null,
  "pre_tokenizer": {"type": "Whitespace"},
  "post_processor": null,
  "decoder": null,
  "model": {"type": "BPE", "dropout": 0.5, "unk_token": null, "continuing_subword_prefix": null, "end_of_word_suffix": null, "fuse_unk": false, "byte_fallback": false, "vocab": {"a": 0, "b": 1, "ab": 2}, "merges": ["a b"]}
}"#;

#[test]
fn sampling_tokenizers_are_recognised() {
    assert!(!samples_segmentation(&tokenizer()));
    assert!(!samples_segmentation(&tokenizers::Tokenizer::from_str(BERT_TOKENIZER_JSON).unwrap()));
    let tok = tokenizers::Tokenizer::from_str(DROPOUT_TOKENIZER_JSON).unwrap();
    assert!(samples_segmentation(&tok));
    let texts = vec!["ab".to_string(), "abab".to_string()];
    assert_eq!(tokenize_batch(&tok, &texts).unwrap().len(), 2);
}
