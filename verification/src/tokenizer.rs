//! The GPT-2 tokenizer.
//!
//! Encoding and decoding are those of the `r50k_base` vocabulary of `tiktoken_rs`:
//! 256 bytes, 50,000 merges and one special token.

use vstd::prelude::*;
use vstd::utf8::{decode_utf8, encode_utf8, valid_utf8};

use tiktoken_rs::CoreBPE;

use crate::text::{decimal_chars, is_white_space, white_space};

verus! {

/// The number of tokens.
pub const GPT2_VOCAB_SIZE: usize = 50257;

/// The special token `<|endoftext|>`.
pub const ENDOFTEXT_TOKEN_ID: u32 = 50256;

/// A failed operation of the tokenizer, with the reason in words.
#[derive(Debug)]
pub enum TokenizerError {
    /// The vocabulary could not be loaded.
    InitError(String),
    /// Tokens could not be turned into text.
    DecodeError(String),
}

impl TokenizerError {
    /// What the error says.
    pub open spec fn text(&self) -> Seq<char> {
        match self {
            TokenizerError::InitError(msg) => "tokenizer init error: "@ + msg@,
            TokenizerError::DecodeError(msg) => "tokenizer decode error: "@ + msg@,
        }
    }

    /// What the error says.
    pub fn message(&self) -> (r: String)
        ensures
            r@ == self.text(),
    {
        match self {
            TokenizerError::InitError(msg) => "tokenizer init error: ".to_string().concat(
                msg.as_str(),
            ),
            TokenizerError::DecodeError(msg) => "tokenizer decode error: ".to_string().concat(
                msg.as_str(),
            ),
        }
    }
}

/// The byte-pair encoder of `tiktoken_rs`. What it was made from is [`bpe_ranks`],
/// [`bpe_specials`] and [`bpe_pattern`].
#[verifier::external_type_specification]
#[verifier::external_body]
pub struct ExCoreBPE(CoreBPE);

/// The byte sequences that an encoder has as tokens, each with its rank, which is also the
/// token's number.
pub uninterp spec fn bpe_ranks(bpe: CoreBPE) -> Map<Seq<u8>, u32>;

/// The special tokens of an encoder, each with its number.
pub uninterp spec fn bpe_specials(bpe: CoreBPE) -> Map<Seq<char>, u32>;

/// The pattern by which an encoder splits a text into pieces.
pub uninterp spec fn bpe_pattern(bpe: CoreBPE) -> Seq<char>;

/// The rank that `tiktoken_rs::r50k_base` gives to a byte sequence, if it is a token.
pub uninterp spec fn r50k_rank(token: Seq<u8>) -> Option<u32>;

/// The rank of a byte sequence.
pub open spec fn rank_in(ranks: Map<Seq<u8>, u32>, token: Seq<u8>) -> Option<u32> {
    if ranks.contains_key(token) {
        Some(ranks[token])
    } else {
        None
    }
}

/// Every single byte is a token, and every number below 50,256 is that of one token.
pub open spec fn complete_ranks(ranks: Map<Seq<u8>, u32>) -> bool {
    &&& forall|byte: u8| ranks.contains_key(#[trigger] seq![byte])
    &&& forall|token: Seq<u8>| #[trigger]
        ranks.contains_key(token) ==> ranks[token] < ENDOFTEXT_TOKEN_ID
    &&& forall|a: Seq<u8>, b: Seq<u8>| #[trigger]
        ranks.contains_key(a) && #[trigger] ranks.contains_key(b) && ranks[a] == ranks[b] ==> a
            == b
    &&& forall|n: u32| n < ENDOFTEXT_TOKEN_ID ==> #[trigger] ranks.contains_value(n)
}

/// The one special token of GPT-2.
pub open spec fn gpt2_specials() -> Map<Seq<char>, u32> {
    Map::<Seq<char>, u32>::empty().insert("<|endoftext|>"@, ENDOFTEXT_TOKEN_ID)
}

/// The pattern of GPT-2: English contractions, and runs of letters, of digits, of other
/// characters and of white space.
pub open spec fn gpt2_pattern() -> Seq<char> {
    "'s|'t|'re|'ve|'m|'ll|'d| ?\\p{L}+| ?\\p{N}+| ?[^\\s\\p{L}\\p{N}]+|\\s+(?!\\S)|\\s+"@
}

/// The vocabulary, the special token and the pattern of GPT-2.
pub open spec fn holds_r50k(
    ranks: Map<Seq<u8>, u32>,
    specials: Map<Seq<char>, u32>,
    pattern: Seq<char>,
) -> bool {
    &&& forall|token: Seq<u8>| #[trigger] rank_in(ranks, token) == r50k_rank(token)
    &&& complete_ranks(ranks)
    &&& specials == gpt2_specials()
    &&& pattern == gpt2_pattern()
}

/// The tokens that `CoreBPE::encode_with_special_tokens` of the `r50k_base` encoder gives
/// for a text.
pub uninterp spec fn r50k_tokens(text: Seq<char>) -> Seq<u32>;

/// The words of the error of `String::from_utf8` on bytes that are not valid UTF-8.
pub uninterp spec fn utf8_error(bytes: Seq<u8>) -> Seq<char>;

/// The bytes of a token, if it is one of the vocabulary.
pub open spec fn token_bytes(
    ranks: Map<Seq<u8>, u32>,
    specials: Map<Seq<char>, u32>,
    token: u32,
) -> Option<Seq<u8>> {
    if ranks.contains_value(token) {
        Some(choose|bytes: Seq<u8>| #[trigger] ranks.contains_key(bytes) && ranks[bytes] == token)
    } else if specials.contains_value(token) {
        Some(
            encode_utf8(
                choose|name: Seq<char>| #[trigger]
                    specials.contains_key(name) && specials[name] == token,
            ),
        )
    } else {
        None
    }
}

/// The bytes of tokens, one after the other, or the first token that is not one of the
/// vocabulary.
pub open spec fn joined_bytes(
    ranks: Map<Seq<u8>, u32>,
    specials: Map<Seq<char>, u32>,
    tokens: Seq<u32>,
) -> Result<Seq<u8>, u32>
    decreases tokens.len(),
{
    if tokens.len() == 0 {
        Ok(Seq::empty())
    } else {
        match joined_bytes(ranks, specials, tokens.drop_last()) {
            Ok(front) => match token_bytes(ranks, specials, tokens.last()) {
                Some(bytes) => Ok(front + bytes),
                None => Err(tokens.last()),
            },
            Err(token) => Err(token),
        }
    }
}

/// What tokens decode to: the text that their bytes encode, or the error in words.
pub open spec fn decoded_text(
    ranks: Map<Seq<u8>, u32>,
    specials: Map<Seq<char>, u32>,
    tokens: Seq<u32>,
) -> Result<Seq<char>, Seq<char>> {
    match joined_bytes(ranks, specials, tokens) {
        Ok(bytes) => if valid_utf8(bytes) {
            Ok(decode_utf8(bytes))
        } else {
            Err("Unable to decode into a valid UTF-8 string: "@ + utf8_error(bytes))
        },
        Err(token) => Err("Invalid token for decoding: "@ + decimal_chars(token as nat)),
    }
}

/// The longest run of characters of one kind that a text for the encoder may hold. The
/// pattern matcher keeps one state for each character of a run and two more, and gives up
/// at a million states.
pub const MAX_RUN: usize = 999998;

/// The kinds of characters that the pattern takes in runs.
#[derive(Clone, Copy, Debug, PartialEq, Eq, Structural)]
pub enum Kind {
    Space,
    Letter,
    Digit,
    Other,
}

/// The kind of a character up to 127 that is not white space.
pub open spec fn ascii_kind(c: char) -> Kind {
    let u = c as u32;
    if 65 <= u <= 90 || 97 <= u <= 122 {
        Kind::Letter
    } else if 48 <= u <= 57 {
        Kind::Digit
    } else {
        Kind::Other
    }
}

/// A character may be of a kind. Whether one above 127 is a letter, a digit or another
/// character is left open.
pub open spec fn may_be(c: char, kind: Kind) -> bool {
    if kind == Kind::Space {
        is_white_space(c)
    } else {
        !is_white_space(c) && (c as u32 >= 128 || ascii_kind(c) == kind)
    }
}

/// The length of a run with one more character. A blank in front of a run counts, unless
/// the run is one of white space.
pub open spec fn longer_run(run: nat, c: char, kind: Kind) -> nat {
    if may_be(c, kind) {
        run + 1
    } else if c == ' ' {
        1
    } else {
        0
    }
}

/// The length of the run of a kind at the end of a text.
pub open spec fn trailing_run(text: Seq<char>, kind: Kind) -> nat
    decreases text.len(),
{
    if text.len() == 0 {
        0
    } else {
        longer_run(trailing_run(text.drop_last(), kind), text.last(), kind)
    }
}

/// No run of a kind in the text is too long for the encoder.
pub open spec fn runs_fit(text: Seq<char>, kind: Kind) -> bool {
    forall|n: int| 0 <= n <= text.len() ==> #[trigger] trailing_run(text.take(n), kind) <= MAX_RUN
}

/// No run in the text is too long for the encoder.
pub open spec fn text_fits(text: Seq<char>) -> bool {
    &&& runs_fit(text, Kind::Space)
    &&& runs_fit(text, Kind::Letter)
    &&& runs_fit(text, Kind::Digit)
    &&& runs_fit(text, Kind::Other)
}

fn of_kind(c: char, kind: Kind) -> (r: bool)
    ensures
        r == may_be(c, kind),
{
    let u: u32 = c as u32;
    let letter: bool = (65 <= u && u <= 90) || (97 <= u && u <= 122);
    let number: bool = 48 <= u && u <= 57;
    let space: bool = white_space(c);
    match kind {
        Kind::Space => space,
        Kind::Letter => !space && (u >= 128 || letter),
        Kind::Digit => !space && (u >= 128 || number),
        Kind::Other => !space && (u >= 128 || (!letter && !number)),
    }
}

fn kind_fits(text: &str, kind: Kind) -> (r: bool)
    ensures
        r == runs_fit(text@, kind),
{
    let mut run: usize = 0;
    let mut ok: bool = true;
    let ghost all = text@;
    let ghost mut n: int = 0;
    assert(all.take(0) =~= Seq::<char>::empty());
    for c in it: text.chars()
        invariant
            it.seq() == all,
            n == it.index(),
            n <= all.len(),
            run == if trailing_run(all.take(n), kind) <= MAX_RUN {
                trailing_run(all.take(n), kind)
            } else {
                (MAX_RUN + 1) as nat
            },
            ok == forall|m: int|
                0 <= m <= n ==> #[trigger] trailing_run(all.take(m), kind) <= MAX_RUN,
    {
        assert(all.take(n + 1).drop_last() =~= all.take(n));
        assert(all.take(n + 1).last() == c);
        if of_kind(c, kind) {
            if run <= MAX_RUN {
                run += 1;
            }
        } else if c == ' ' {
            run = 1;
        } else {
            run = 0;
        }
        if run > MAX_RUN {
            ok = false;
        }
        proof {
            n = n + 1;
        }
    }
    ok
}

/// Whether the encoder takes a text.
pub fn fits(text: &str) -> (r: bool)
    ensures
        r == text_fits(text@),
{
    kind_fits(text, Kind::Space) && kind_fits(text, Kind::Letter) && kind_fits(text, Kind::Digit)
        && kind_fits(text, Kind::Other)
}

/// The GPT-2 tokenizer. Every value holds an `r50k_base` encoder.
pub struct Gpt2Tokenizer {
    bpe: CoreBPE,
}

/// Loads the encoder with `tiktoken_rs::r50k_base`. The vocabulary is part of that crate:
/// its 50,256 lines are all well formed and no token or rank occurs twice, so loading
/// always succeeds. The claim is also that the ranks are the same at every load, that they
/// are the numbers below 50,256 with all single bytes among the tokens, and what the one
/// special token and the pattern are.
#[verifier::external_body]
fn load_r50k() -> (r: Result<CoreBPE, String>)
    ensures
        match r {
            Ok(bpe) => {
                &&& forall|token: Seq<u8>| #[trigger]
                    rank_in(bpe_ranks(bpe), token) == r50k_rank(token)
                &&& complete_ranks(bpe_ranks(bpe))
                &&& bpe_specials(bpe) == gpt2_specials()
                &&& bpe_pattern(bpe) == gpt2_pattern()
            },
            Err(_) => false,
        },
{
    tiktoken_rs::r50k_base().map_err(|e| format!("{e}"))
}

/// Encodes a text with `CoreBPE::encode_with_special_tokens` of an `r50k_base` encoder. The
/// claim is that the tokens depend on the text alone, that each is one of the vocabulary, and
/// that their bytes are those of the text: the pattern splits a text into pieces without
/// leaving anything out, every single byte is a token, and merging only joins neighbours. A
/// text that does not fit makes the pattern matcher give up, and the encoder panics.
#[verifier::external_body]
fn encode_r50k(bpe: &CoreBPE, text: &str) -> (r: Vec<u32>)
    requires
        holds_r50k(bpe_ranks(*bpe), bpe_specials(*bpe), bpe_pattern(*bpe)),
        text_fits(text@),
    ensures
        r@ == r50k_tokens(text@),
        match joined_bytes(bpe_ranks(*bpe), bpe_specials(*bpe), r@) {
            Ok(bytes) => bytes == encode_utf8(text@),
            Err(_) => false,
        },
{
    bpe.encode_with_special_tokens(text)
}

/// Decodes tokens with `CoreBPE::decode`. The claim is that the tokens' bytes are joined and
/// read as UTF-8, and what the errors say: the first token that is not one of the
/// vocabulary, or the words of the error of `String::from_utf8`.
#[verifier::external_body]
fn decode_r50k(bpe: &CoreBPE, tokens: Vec<u32>) -> (r: Result<String, String>)
    requires
        holds_r50k(bpe_ranks(*bpe), bpe_specials(*bpe), bpe_pattern(*bpe)),
    ensures
        match joined_bytes(bpe_ranks(*bpe), bpe_specials(*bpe), tokens@) {
            Ok(bytes) => match r {
                Ok(text) => valid_utf8(bytes) && text@ == decode_utf8(bytes),
                Err(e) => !valid_utf8(bytes) && e@
                    == "Unable to decode into a valid UTF-8 string: "@ + utf8_error(bytes),
            },
            Err(token) => match r {
                Ok(_) => false,
                Err(e) => e@ == "Invalid token for decoding: "@ + decimal_chars(token as nat),
            },
        },
{
    bpe.decode(tokens).map_err(|e| format!("{e}"))
}

/// A token with bytes is one of the vocabulary.
proof fn lemma_token_bytes(ranks: Map<Seq<u8>, u32>, specials: Map<Seq<char>, u32>, token: u32)
    requires
        complete_ranks(ranks),
        specials == gpt2_specials(),
    ensures
        token_bytes(ranks, specials, token) is Some <==> token < GPT2_VOCAB_SIZE,
{
    if ranks.contains_value(token) {
        let bytes = choose|bytes: Seq<u8>| #[trigger]
            ranks.contains_key(bytes) && ranks[bytes] == token;
        assert(ranks.contains_key(bytes));
    }
    let name = "<|endoftext|>"@;
    assert(specials.contains_key(name) && specials[name] == ENDOFTEXT_TOKEN_ID);
    if specials.contains_value(token) {
        let other = choose|other: Seq<char>| #[trigger]
            specials.contains_key(other) && specials[other] == token;
        assert(other == name);
    }
}

/// Tokens can be joined exactly if all of them are of the vocabulary.
pub proof fn known_tokens_are_joined(
    ranks: Map<Seq<u8>, u32>,
    specials: Map<Seq<char>, u32>,
    tokens: Seq<u32>,
)
    requires
        complete_ranks(ranks),
        specials == gpt2_specials(),
    ensures
        joined_bytes(ranks, specials, tokens) is Ok <==> forall|i: int|
            0 <= i < tokens.len() ==> #[trigger] tokens[i] < GPT2_VOCAB_SIZE,
    decreases tokens.len(),
{
    if tokens.len() > 0 {
        let front = tokens.drop_last();
        known_tokens_are_joined(ranks, specials, front);
        lemma_token_bytes(ranks, specials, tokens.last());
        assert(forall|i: int| 0 <= i < front.len() ==> #[trigger] tokens[i] == front[i]);
        assert(tokens.last() == tokens[tokens.len() - 1]);
        if exists|i: int| 0 <= i < front.len() && !(#[trigger] front[i] < GPT2_VOCAB_SIZE) {
            let i = choose|i: int| 0 <= i < front.len() && !(#[trigger] front[i] < GPT2_VOCAB_SIZE);
            assert(!(tokens[i] < GPT2_VOCAB_SIZE));
        }
    }
}

/// No tokens decode to the empty text.
pub proof fn no_tokens_decode_to_nothing(
    ranks: Map<Seq<u8>, u32>,
    specials: Map<Seq<char>, u32>,
)
    ensures
        decoded_text(ranks, specials, Seq::empty()) == Ok::<Seq<char>, Seq<char>>(Seq::empty()),
{
    assert(decode_utf8(Seq::empty()) =~= Seq::empty());
}

/// Any two GPT-2 encoders have the same vocabulary.
pub proof fn vocabularies_are_the_same(
    ranks: Map<Seq<u8>, u32>,
    others: Map<Seq<u8>, u32>,
    specials: Map<Seq<char>, u32>,
    pattern: Seq<char>,
)
    requires
        holds_r50k(ranks, specials, pattern),
        holds_r50k(others, specials, pattern),
    ensures
        ranks == others,
{
    assert forall|token: Seq<u8>|
        ranks.contains_key(token) == others.contains_key(token) && (ranks.contains_key(token)
            ==> ranks[token] == others[token]) by {
        assert(rank_in(ranks, token) == r50k_rank(token));
        assert(rank_in(others, token) == r50k_rank(token));
    }
    assert(ranks =~= others);
}

/// Tokens whose bytes are those of a text decode to the text.
pub proof fn encoded_texts_come_back(
    ranks: Map<Seq<u8>, u32>,
    specials: Map<Seq<char>, u32>,
    text: Seq<char>,
    tokens: Seq<u32>,
)
    requires
        joined_bytes(ranks, specials, tokens) == Ok::<Seq<u8>, u32>(encode_utf8(text)),
    ensures
        decoded_text(ranks, specials, tokens) == Ok::<Seq<char>, Seq<char>>(text),
{
    vstd::utf8::encode_utf8_decode_utf8(text);
    vstd::utf8::encode_utf8_valid_utf8(text);
}

/// What a failed load is reported as.
pub fn init_failure(reason: String) -> (r: TokenizerError)
    ensures
        r == TokenizerError::InitError(reason),
{
    TokenizerError::InitError(reason)
}

/// What the outcome of decoding is reported as.
pub fn decode_outcome(result: Result<String, String>) -> (r: Result<String, TokenizerError>)
    ensures
        r == match result {
            Ok(text) => Ok::<String, TokenizerError>(text),
            Err(e) => Err::<String, TokenizerError>(TokenizerError::DecodeError(e)),
        },
{
    match result {
        Ok(text) => Ok(text),
        Err(e) => Err(TokenizerError::DecodeError(e)),
    }
}

impl Gpt2Tokenizer {
    /// The byte sequences that are tokens, each with its number.
    pub closed spec fn ranks(&self) -> Map<Seq<u8>, u32> {
        bpe_ranks(self.bpe)
    }

    /// The special tokens, each with its number.
    pub closed spec fn specials(&self) -> Map<Seq<char>, u32> {
        bpe_specials(self.bpe)
    }

    /// The pattern by which a text is split into pieces.
    pub closed spec fn pattern(&self) -> Seq<char> {
        bpe_pattern(self.bpe)
    }

    /// The encoder is that of GPT-2.
    #[verifier::type_invariant]
    pub closed spec fn is_gpt2(&self) -> bool {
        holds_r50k(self.ranks(), self.specials(), self.pattern())
    }

    /// A tokenizer with the vocabulary, the special token and the pattern of GPT-2.
    pub fn new() -> (r: Result<Gpt2Tokenizer, TokenizerError>)
        ensures
            match r {
                Ok(t) => holds_r50k(t.ranks(), t.specials(), t.pattern()),
                Err(_) => false,
            },
    {
        match load_r50k() {
            Ok(bpe) => Ok(Gpt2Tokenizer { bpe }),
            Err(e) => Err(init_failure(e)),
        }
    }

    /// Turns a text into tokens. Their bytes are those of the text, so that decoding gives
    /// the text back.
    pub fn encode(&self, text: &str) -> (tokens: Vec<u32>)
        requires
            text_fits(text@),
        ensures
            holds_r50k(self.ranks(), self.specials(), self.pattern()),
            tokens@ == r50k_tokens(text@),
            forall|i: int| 0 <= i < tokens@.len() ==> #[trigger] tokens@[i] < GPT2_VOCAB_SIZE,
            joined_bytes(self.ranks(), self.specials(), tokens@) == Ok::<Seq<u8>, u32>(
                encode_utf8(text@),
            ),
            decoded_text(self.ranks(), self.specials(), tokens@) == Ok::<Seq<char>, Seq<char>>(
                text@,
            ),
    {
        proof {
            use_type_invariant(self);
        }
        let tokens: Vec<u32> = encode_r50k(&self.bpe, text);
        proof {
            known_tokens_are_joined(self.ranks(), self.specials(), tokens@);
            encoded_texts_come_back(self.ranks(), self.specials(), text@, tokens@);
        }
        tokens
    }

    /// Turns tokens back into text: their bytes are joined and read as UTF-8.
    pub fn decode(&self, tokens: &[u32]) -> (r: Result<String, TokenizerError>)
        ensures
            holds_r50k(self.ranks(), self.specials(), self.pattern()),
            match (r, decoded_text(self.ranks(), self.specials(), tokens@)) {
                (Ok(text), Ok(expected)) => text@ == expected,
                (Err(TokenizerError::DecodeError(e)), Err(expected)) => e@ == expected,
                _ => false,
            },
            r is Ok ==> forall|i: int| 0 <= i < tokens@.len() ==> #[trigger] tokens@[i]
                < GPT2_VOCAB_SIZE,
    {
        proof {
            use_type_invariant(self);
            known_tokens_are_joined(self.ranks(), self.specials(), tokens@);
        }
        decode_outcome(decode_r50k(&self.bpe, vstd::slice::slice_to_vec(tokens)))
    }

    /// The number of tokens.
    pub fn vocab_size(&self) -> (r: usize)
        ensures
            r == GPT2_VOCAB_SIZE,
    {
        GPT2_VOCAB_SIZE
    }
}

} // verus!
