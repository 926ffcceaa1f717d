//! What a tokenizer knows of tokens and text.
use tokenizers::{DecoderWrapper, Tokenizer};
use vstd::prelude::*;

verus! {

/// The tokenizer of a model.
#[verifier::external_type_specification]
#[verifier::external_body]
pub struct ExTokenizer(tokenizers::Tokenizer);

/// The ids of a tokenizer's tokens, added ones before those of its model.
pub uninterp spec fn vocabulary(tokenizer: Tokenizer) -> Map<Seq<char>, u32>;

/// What turns the tokens of a tokenizer into text.
#[derive(Clone, Copy, Debug, PartialEq, Eq, Structural)]
pub enum DecoderKind {
    /// Nothing: the tokens are joined with spaces.
    Plain,
    Bpe,
    ByteLevel,
    WordPiece,
    Metaspace,
    Ctc,
    Sequence,
    Replace,
    Fuse,
    Strip,
    ByteFallback,
}

impl DecoderKind {
    /// The decoder takes every list of tokens. The other ones panic on some: the BPE decoder on
    /// the empty list, the stripping one on a token shorter than what it strips, the replacing
    /// one where its pattern gives up, and a sequence may hold any of them.
    pub open spec fn takes_any_tokens(self) -> bool {
        match self {
            DecoderKind::Bpe => false,
            DecoderKind::Sequence => false,
            DecoderKind::Replace => false,
            DecoderKind::Strip => false,
            _ => true,
        }
    }
}

/// The decoder of a tokenizer.
pub uninterp spec fn decoder_of(tokenizer: Tokenizer) -> DecoderKind;

/// The text that ids stand for, with or without special tokens.
pub uninterp spec fn decoded(tokenizer: Tokenizer, ids: Seq<u32>, skip_special: bool) -> Seq<char>;

/// `Tokenizer::token_to_id` looks a token up among those that were added, then among those of
/// the model.
#[verifier::external_body]
pub(crate) fn token_to_id(tokenizer: &Tokenizer, token: &str) -> (result: Option<u32>)
    ensures
        result == if vocabulary(*tokenizer).contains_key(token@) {
            Some(vocabulary(*tokenizer)[token@])
        } else {
            None
        },
{
    tokenizer.token_to_id(token)
}

/// `Tokenizer::get_decoder` hands out what turns tokens into text; the result says which decoder
/// that is.
#[verifier::external_body]
pub(crate) fn decoder_kind(tokenizer: &Tokenizer) -> (result: DecoderKind)
    ensures
        result == decoder_of(*tokenizer),
{
    match tokenizer.get_decoder() {
        None => DecoderKind::Plain,
        Some(DecoderWrapper::BPE(_)) => DecoderKind::Bpe,
        Some(DecoderWrapper::ByteLevel(_)) => DecoderKind::ByteLevel,
        Some(DecoderWrapper::WordPiece(_)) => DecoderKind::WordPiece,
        Some(DecoderWrapper::Metaspace(_)) => DecoderKind::Metaspace,
        Some(DecoderWrapper::CTC(_)) => DecoderKind::Ctc,
        Some(DecoderWrapper::Sequence(_)) => DecoderKind::Sequence,
        Some(DecoderWrapper::Replace(_)) => DecoderKind::Replace,
        Some(DecoderWrapper::Fuse(_)) => DecoderKind::Fuse,
        Some(DecoderWrapper::Strip(_)) => DecoderKind::Strip,
        Some(DecoderWrapper::ByteFallback(_)) => DecoderKind::ByteFallback,
    }
}

/// `Tokenizer::decode` drops ids that it does not know, and special tokens if told so, and hands
/// the rest to its decoder. The decoders that take any tokens never fail.
#[verifier::external_body]
pub(crate) fn decode(tokenizer: &Tokenizer, ids: &[u32], skip_special: bool) -> (result: Option<
    String,
>)
    requires
        decoder_of(*tokenizer).takes_any_tokens(),
    ensures
        match result {
            Some(text) => text@ == decoded(*tokenizer, ids@, skip_special),
            None => false,
        },
{
    tokenizer.decode(ids, skip_special).ok()
}

/// The text of generated tokens without special tokens, where the decoder takes any tokens.
pub fn text_of(tokenizer: &Tokenizer, ids: &[u32]) -> (result: Option<String>)
    ensures
        match result {
            Some(text) => decoder_of(*tokenizer).takes_any_tokens() && text@ == decoded(
                *tokenizer,
                ids@,
                true,
            ),
            None => !decoder_of(*tokenizer).takes_any_tokens(),
        },
{
    match decoder_kind(tokenizer) {
        DecoderKind::Bpe => None,
        DecoderKind::Sequence => None,
        DecoderKind::Replace => None,
        DecoderKind::Strip => None,
        _ => decode(tokenizer, ids, true),
    }
}

} // verus!
