//! Tokens and text.
use candle_core::{DType, Device, Tensor};
use crane_oai::engine::backend::{
    eos_ids, eos_token_id, select_rows, BatchDecodeExtractTimings, BatchDecodeSetupTimings,
};
use crane_oai::vocabulary::text_of;
use tokenizers::decoders::bpe::BPEDecoder;
use tokenizers::decoders::byte_fallback::ByteFallback;
use tokenizers::decoders::ctc::CTC;
use tokenizers::decoders::fuse::Fuse;
use tokenizers::decoders::sequence::Sequence;
use tokenizers::decoders::strip::Strip;
use tokenizers::decoders::wordpiece::WordPiece;
use tokenizers::models::wordlevel::WordLevel;
use tokenizers::normalizers::replace::Replace;
use tokenizers::pre_tokenizers::metaspace::Metaspace;
use tokenizers::pre_tokenizers::byte_level::ByteLevel;
use tokenizers::{AddedToken, Tokenizer};

fn tokenizer(special: &[&str]) -> Tokenizer {
    let vocab = ["hello", "\u{120}world", "[UNK]"]
        .iter()
        .enumerate()
        .map(|(id, token)| (token.to_string(), id as u32))
        .collect();
    let model = WordLevel::builder().vocab(vocab).unk_token("[UNK]".into()).build().unwrap();
    let mut tokenizer = Tokenizer::new(model);
    let added: Vec<AddedToken> =
        special.iter().map(|token| AddedToken::from(token.to_string(), true)).collect();
    tokenizer.add_special_tokens(&added);
    tokenizer
}

#[test]
fn known_end_tokens_end_a_sequence() {
    assert_eq!(eos_token_id(&tokenizer(&["<|im_end|>", "<|endoftext|>"])), vec![3, 4]);
    assert_eq!(eos_token_id(&tokenizer(&["<|endoftext|>"])), vec![3]);
    assert_eq!(eos_token_id(&tokenizer(&["<|im_end|>"])), vec![3]);
    assert_eq!(eos_token_id(&tokenizer(&[])), vec![151645, 151643]);
}

#[test]
fn end_ids_keep_their_order() {
    assert_eq!(eos_ids(Some(7), Some(2)), vec![7, 2]);
    assert_eq!(eos_ids(None, Some(2)), vec![2]);
    assert_eq!(eos_ids(None, None), vec![151645, 151643]);
}

#[test]
fn byte_level_tokens_become_text_without_special_ones() {
    let mut tokenizer = tokenizer(&["<|im_end|>"]);
    assert_eq!(text_of(&tokenizer, &[0, 1, 3]), Some("hello \u{120}world".to_string()));
    tokenizer.with_decoder(Some(ByteLevel::default()));
    assert_eq!(text_of(&tokenizer, &[0, 1, 3]), Some("hello world".to_string()));
    assert_eq!(text_of(&tokenizer, &[3, 99]), Some(String::new()));
}

#[test]
fn tokens_are_decoded_where_the_decoder_takes_any() {
    let mut tokenizer = tokenizer(&["<|im_end|>"]);
    tokenizer.with_decoder(Some(Fuse::new()));
    assert_eq!(text_of(&tokenizer, &[0, 0, 3]), Some("hellohello".to_string()));
    tokenizer.with_decoder(Some(ByteFallback::new()));
    assert_eq!(text_of(&tokenizer, &[0, 0]), Some("hellohello".to_string()));
    tokenizer.with_decoder(Some(WordPiece::default()));
    assert_eq!(text_of(&tokenizer, &[0, 0]), Some("hello hello".to_string()));
    tokenizer.with_decoder(Some(CTC::default()));
    assert_eq!(text_of(&tokenizer, &[0, 0]), Some("hello".to_string()));
    tokenizer.with_decoder(Some(Metaspace::default()));
    assert_eq!(text_of(&tokenizer, &[]), Some(String::new()));
    tokenizer.with_decoder(Some(BPEDecoder::default()));
    assert_eq!(text_of(&tokenizer, &[0]), None);
    tokenizer.with_decoder(Some(Strip::new('h', 1, 0)));
    assert_eq!(text_of(&tokenizer, &[0]), None);
    tokenizer.with_decoder(Some(Replace::new("l", "r").unwrap()));
    assert_eq!(text_of(&tokenizer, &[0]), None);
    tokenizer.with_decoder(Some(Sequence::new(vec![])));
    assert_eq!(text_of(&tokenizer, &[0]), None);
}

#[test]
fn dropped_rows_keep_their_layers_without_caches() {
    let tensor = Tensor::zeros((1, 1, 2, 2), DType::F32, &Device::Cpu).unwrap();
    let row = || vec![Some((tensor.clone(), tensor.clone())), None];
    let rows = select_rows(vec![row(), row(), row()], &[true, false]);
    assert!(rows[0][0].is_some() && rows[2][0].is_some());
    assert_eq!(rows[1].len(), 2);
    assert!(rows[1].iter().all(|cache| cache.is_none()));
}

#[test]
fn timings_start_at_zero() {
    assert_eq!(BatchDecodeSetupTimings::default().total_us, 0);
    assert_eq!(BatchDecodeExtractTimings::default().layers, 0);
}
