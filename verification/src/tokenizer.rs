use vstd::prelude::*;
use crate::config::{ConfigurationError, WindowConfig};
use crate::planner::{plan, plan_matches, ChunkDescriptor};

verus! {

#[verifier::external_type_specification]
#[verifier::external_body]
pub struct ExCoreBPE(tiktoken_rs::CoreBPE);

/// The token sequence the o200k encoding produces for a text.
pub uninterp spec fn encoded_tokens(text: Seq<char>) -> Seq<u32>;

/// The text the o200k encoding decodes a token sequence to, or `None` when
/// the sequence's bytes are not valid UTF-8 (a cut through a multi-token
/// symbol) or a token id is unknown.
pub uninterp spec fn decoded_text(tokens: Seq<u32>) -> Option<Seq<char>>;

/// The tokenizer adapter: a handle on the o200k byte-pair encoder.  The only
/// constructor loads that one fixed encoder, so every `Tokenizer` encodes
/// and decodes as a function of the input text or tokens alone.
pub struct Tokenizer {
    bpe: tiktoken_rs::CoreBPE,
}

impl Tokenizer {
    /// Relies on tiktoken_rs::o200k_base: builds the o200k tokenizer from
    /// the token table embedded in that crate; `None` only if that table
    /// cannot be parsed.
    #[verifier::external_body]
    pub fn new() -> Option<Tokenizer> {
        match tiktoken_rs::o200k_base() {
            Ok(bpe) => Some(Tokenizer { bpe }),
            Err(_) => None,
        }
    }

    /// Relies on tiktoken_rs::CoreBPE::encode_ordinary: the deterministic
    /// o200k encoding of the text, with no special-token handling.  Every
    /// `Tokenizer` holds the o200k encoder, so the result depends on the
    /// text alone.
    #[verifier::external_body]
    fn encode_raw(&self, text: &str) -> (r: Vec<u32>)
        ensures
            r@ == encoded_tokens(text@),
    {
        self.bpe.encode_ordinary(text)
    }

    /// Relies on tiktoken_rs::CoreBPE::decode: concatenates each token's
    /// bytes and validates the whole as UTF-8; it fails exactly when a token
    /// id is unknown or the bytes are not valid UTF-8, deterministically in
    /// the tokens.
    #[verifier::external_body]
    fn decode_raw(&self, tokens: &Vec<u32>) -> (r: Option<String>)
        ensures
            r is Some <==> decoded_text(tokens@) is Some,
            r matches Some(s) ==> decoded_text(tokens@) == Some(s@),
    {
        self.bpe.decode(tokens).ok()
    }

    /// Encodes a document into its token sequence.
    pub fn tokenize(&self, text: &str) -> (r: Vec<u32>)
        ensures
            r@ == encoded_tokens(text@),
    {
        self.encode_raw(text)
    }

    /// Decodes the token range `[lo, hi)` of a token sequence to text;
    /// `None` exactly when that sub-sequence does not decode cleanly.
    pub fn decode_range(&self, tokens: &Vec<u32>, lo: usize, hi: usize) -> (r: Option<String>)
        requires
            lo <= hi <= tokens@.len(),
        ensures
            r is Some <==> decoded_text(tokens@.subrange(lo as int, hi as int)) is Some,
            r matches Some(s) ==> decoded_text(tokens@.subrange(lo as int, hi as int)) == Some(
                s@,
            ),
    {
        let piece = copy_range(tokens, lo, hi);
        self.decode_raw(&piece)
    }

    /// Materializes the three text windows of one chunk.  `None` when the
    /// descriptor's ranges do not fit the token sequence or when any of the
    /// three token ranges fails to decode — a failure scoped to this chunk
    /// alone.
    pub fn prepare_windows(&self, tokens: &Vec<u32>, d: &ChunkDescriptor) -> (r: Option<
        ChunkWindows,
    >)
        ensures
            d.wf(tokens@.len() as int) ==> {
                &&& r is Some <==> windows_decodable(tokens@, *d)
                &&& (r matches Some(w) ==> windows_match(tokens@, *d, w))
            },
            !d.wf(tokens@.len() as int) ==> r is None,
    {
        if !(d.context_start <= d.start && d.start <= d.end && d.end <= d.suffix_end
            && d.suffix_end <= tokens.len()) {
            return None;
        }
        let context = match self.decode_range(tokens, d.context_start, d.start) {
            Some(s) => s,
            None => {
                return None;
            },
        };
        let content = match self.decode_range(tokens, d.start, d.end) {
            Some(s) => s,
            None => {
                return None;
            },
        };
        let suffix = match self.decode_range(tokens, d.end, d.suffix_end) {
            Some(s) => s,
            None => {
                return None;
            },
        };
        Some(ChunkWindows { context, content, suffix })
    }

    /// Encodes a document and plans its chunks in one step: the token
    /// sequence is the o200k encoding of the text, and the descriptors are
    /// the full plan over its length.  Rejects exactly the invalid
    /// configurations, before any work.
    pub fn plan_document(&self, text: &str, config: &WindowConfig) -> (r: Result<
        (Vec<u32>, Vec<ChunkDescriptor>),
        ConfigurationError,
    >)
        ensures
            r is Ok <==> config.is_valid(),
            r matches Ok(p) ==> {
                &&& p.0@ == encoded_tokens(text@)
                &&& plan_matches(p.0@.len() as int, *config, p.1@)
            },
    {
        let tokens = self.tokenize(text);
        match plan(tokens.len(), config) {
            Ok(ds) => Ok((tokens, ds)),
            Err(e) => Err(e),
        }
    }
}

/// The three decoded text windows of one chunk, handed to the
/// transformation service: leading context, the content to transform, and
/// the trailing suffix.
pub struct ChunkWindows {
    pub context: String,
    pub content: String,
    pub suffix: String,
}

/// The leading-context token range of a descriptor.
pub open spec fn context_tokens(tokens: Seq<u32>, d: ChunkDescriptor) -> Seq<u32> {
    tokens.subrange(d.context_start as int, d.start as int)
}

/// The content token range of a descriptor.
pub open spec fn content_tokens(tokens: Seq<u32>, d: ChunkDescriptor) -> Seq<u32> {
    tokens.subrange(d.start as int, d.end as int)
}

/// The trailing-suffix token range of a descriptor.
pub open spec fn suffix_tokens(tokens: Seq<u32>, d: ChunkDescriptor) -> Seq<u32> {
    tokens.subrange(d.end as int, d.suffix_end as int)
}

/// All three windows of the chunk decode cleanly.
pub open spec fn windows_decodable(tokens: Seq<u32>, d: ChunkDescriptor) -> bool {
    &&& decoded_text(context_tokens(tokens, d)) is Some
    &&& decoded_text(content_tokens(tokens, d)) is Some
    &&& decoded_text(suffix_tokens(tokens, d)) is Some
}

/// `w` holds exactly the decoded text of the chunk's three token ranges.
pub open spec fn windows_match(tokens: Seq<u32>, d: ChunkDescriptor, w: ChunkWindows) -> bool {
    &&& decoded_text(context_tokens(tokens, d)) == Some(w.context@)
    &&& decoded_text(content_tokens(tokens, d)) == Some(w.content@)
    &&& decoded_text(suffix_tokens(tokens, d)) == Some(w.suffix@)
}

/// Copies the token range `[lo, hi)` out of a token sequence.
pub fn copy_range(tokens: &Vec<u32>, lo: usize, hi: usize) -> (r: Vec<u32>)
    requires
        lo <= hi <= tokens@.len(),
    ensures
        r@ == tokens@.subrange(lo as int, hi as int),
{
    let mut r: Vec<u32> = Vec::new();
    proof {
        assert(r@ =~= tokens@.subrange(lo as int, lo as int));
    }
    let mut i: usize = lo;
    while i < hi
        invariant
            lo <= i <= hi <= tokens@.len(),
            r@ == tokens@.subrange(lo as int, i as int),
        decreases hi - i,
    {
        r.push(tokens[i]);
        proof {
            assert(tokens@.subrange(lo as int, i + 1) =~= tokens@.subrange(
                lo as int,
                i as int,
            ).push(tokens@[i as int]));
        }
        i = i + 1;
    }
    r
}

} // verus!
