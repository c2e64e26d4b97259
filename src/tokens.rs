use vstd::prelude::*;
use tiktoken_rs::CoreBPE;

verus! {

#[verifier::external_type_specification]
#[verifier::external_body]
pub struct ExCoreBPE(CoreBPE);

/// The number of tokens that the p50k_base encoding gives a text, or `None`
/// where its encoder reports an error.
pub uninterp spec fn p50k_encode_len(text: Seq<char>) -> Option<nat>;

/// Relies on tiktoken_rs::p50k_base: builds the p50k_base encoder from the
/// vocabulary bundled with the crate, or reports why it could not.
#[verifier::external_body]
fn load_p50k() -> (r: Result<CoreBPE, String>) {
    tiktoken_rs::p50k_base().map_err(|e| e.to_string())
}

/// Relies on CoreBPE::encode with every special token allowed (the call that
/// CoreBPE::encode_with_special_tokens makes, without its unwrap), on an
/// encoder built by tiktoken_rs::p50k_base. An empty text yields no tokens.
#[verifier::external_body]
fn p50k_count(bpe: &CoreBPE, text: &str) -> (r: Option<usize>)
    ensures
        r matches Some(n) ==> p50k_encode_len(text@) == Some(n as nat),
        r is None ==> p50k_encode_len(text@) is None,
        text@.len() == 0 ==> r == Some(0usize),
{
    bpe.encode(text, &bpe.special_tokens()).ok().map(|(tokens, _)| tokens.len())
}

/// A subword tokenizer with the p50k_base encoding.
pub struct Tokenizer {
    bpe: CoreBPE,
}

impl Tokenizer {
    /// Builds the tokenizer, or returns why its vocabulary could not be loaded.
    pub fn p50k_base() -> (r: Result<Tokenizer, String>) {
        match load_p50k() {
            Ok(bpe) => Ok(Tokenizer { bpe }),
            Err(e) => Err(e),
        }
    }

    /// The number of tokens in `text`; `None` where the encoder fails on it.
    pub fn count(&self, text: &str) -> (r: Option<usize>)
        ensures
            r matches Some(n) ==> p50k_encode_len(text@) == Some(n as nat),
            r is None ==> p50k_encode_len(text@) is None,
            text@.len() == 0 ==> r == Some(0usize),
    {
        p50k_count(&self.bpe, text)
    }
}

} // verus!
