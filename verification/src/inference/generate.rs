//! Greedy generation, one token for each forward pass.

use vstd::prelude::*;

use crate::inference::prepare::{pad_tokens, padded_tokens};

verus! {

/// The rows of every pass.
pub const GENERATION_SEQ: usize = 128;

/// The most tokens that are generated.
pub const MAX_NEW_TOKENS: usize = 50;

/// The token that ends a text.
pub const ENDOFTEXT: u32 = 50256;

/// How many tokens may be generated after a prompt: fifty, or as many as there are rows
/// left.
pub open spec fn token_budget(prompt_len: int) -> int {
    if GENERATION_SEQ - prompt_len < MAX_NEW_TOKENS {
        GENERATION_SEQ - prompt_len
    } else {
        MAX_NEW_TOKENS as int
    }
}

/// How many tokens may be generated after a prompt.
pub fn max_new_tokens(prompt_len: usize) -> (r: usize)
    requires
        prompt_len <= GENERATION_SEQ,
    ensures
        r == token_budget(prompt_len as int),
{
    let left: usize = GENERATION_SEQ - prompt_len;
    if left < MAX_NEW_TOKENS {
        left
    } else {
        MAX_NEW_TOKENS
    }
}

/// What a forward pass predicts: how many elements of the predicting row are not numbers,
/// and the token with the greatest score.
#[derive(Clone, Copy, Debug, PartialEq, Eq, Structural)]
pub struct Prediction {
    pub nan_count: usize,
    pub best_token: u32,
}

/// What comes next.
#[derive(Clone, Copy, Debug, PartialEq, Eq, Structural)]
pub enum Next {
    /// Run another pass.
    Continue,
    /// The predicting row is not finite.
    StopNan,
    /// The text has ended.
    StopEndOfText,
    /// All tokens that were asked for are there.
    StopFull,
}

/// A text in the making.
pub struct Generation {
    pub prompt: Vec<u32>,
    pub generated: Vec<u32>,
    /// The passes that may still be run.
    pub left: usize,
}

impl Generation {
    /// The prompt and what was generated fit the rows, and the end of the text is never
    /// among the generated tokens.
    pub open spec fn wf(&self) -> bool {
        &&& self.prompt@.len() + self.generated@.len() + self.left <= GENERATION_SEQ
        &&& self.prompt@.len() > 0
        &&& self.generated@.len() + self.left == token_budget(self.prompt@.len() as int)
        &&& forall|i: int|
            0 <= i < self.generated@.len() ==> #[trigger] self.generated@[i] != ENDOFTEXT
    }

    /// All tokens so far.
    pub open spec fn tokens(&self) -> Seq<u32> {
        self.prompt@ + self.generated@
    }

    /// A text that starts with a prompt.
    pub fn new(prompt: Vec<u32>) -> (r: Generation)
        requires
            0 < prompt@.len() <= GENERATION_SEQ,
        ensures
            r.wf(),
            r.prompt@ == prompt@,
            r.generated@.len() == 0,
            r.left == token_budget(prompt@.len() as int),
    {
        let left: usize = max_new_tokens(prompt.len());
        Generation { prompt, generated: Vec::new(), left }
    }

    /// The tokens of the next pass, filled up to its rows, and the row that predicts the
    /// next token.
    pub fn next_input(&self) -> (r: (Vec<u32>, usize))
        requires
            self.wf(),
        ensures
            r.0@ == padded_tokens(self.tokens(), GENERATION_SEQ as nat),
            r.1 == self.tokens().len() - 1,
    {
        let mut tokens: Vec<u32> = Vec::new();
        for i in 0..self.prompt.len()
            invariant
                tokens@ == self.prompt@.take(i as int),
        {
            tokens.push(self.prompt[i]);
        }
        assert(tokens@ =~= self.prompt@);
        for i in 0..self.generated.len()
            invariant
                tokens@ == self.prompt@ + self.generated@.take(i as int),
        {
            tokens.push(self.generated[i]);
        }
        assert(tokens@ =~= self.tokens());
        let last: usize = tokens.len() - 1;
        (pad_tokens(&tokens, GENERATION_SEQ), last)
    }

    /// Takes in what a pass predicts.
    pub fn advance(&mut self, p: &Prediction) -> (next: Next)
        requires
            old(self).wf(),
            old(self).left > 0,
        ensures
            final(self).wf(),
            final(self).prompt@ == old(self).prompt@,
            if p.nan_count > 0 {
                next == Next::StopNan && final(self).generated@ == old(self).generated@
                    && final(self).left == old(self).left
            } else if p.best_token == ENDOFTEXT {
                next == Next::StopEndOfText && final(self).generated@ == old(self).generated@
                    && final(self).left == old(self).left
            } else {
                &&& final(self).generated@ == old(self).generated@.push(p.best_token)
                &&& final(self).left == old(self).left - 1
                &&& next == if final(self).left == 0 {
                    Next::StopFull
                } else {
                    Next::Continue
                }
            },
    {
        if p.nan_count > 0 {
            return Next::StopNan;
        }
        if p.best_token == ENDOFTEXT {
            return Next::StopEndOfText;
        }
        self.generated.push(p.best_token);
        self.left = self.left - 1;
        if self.left == 0 {
            Next::StopFull
        } else {
            Next::Continue
        }
    }

    /// Whether the generation succeeded: at least one token was generated.
    pub fn succeeded(&self) -> (r: bool)
        ensures
            r == (self.generated@.len() > 0),
    {
        self.generated.len() > 0
    }
}

/// The tokens that a series of predictions gives: those before the first that is not
/// finite or ends the text, and at most `budget` of them.
pub open spec fn generated_by(predictions: Seq<Prediction>, budget: nat) -> Seq<u32>
    decreases budget,
{
    if budget == 0 || predictions.len() == 0 || predictions[0].nan_count > 0
        || predictions[0].best_token == ENDOFTEXT {
        Seq::empty()
    } else {
        seq![predictions[0].best_token] + generated_by(predictions.skip(1), (budget - 1) as nat)
    }
}

/// What stops the generation over a series of predictions; `Continue` if none of them does.
pub open spec fn stopped_by(predictions: Seq<Prediction>, budget: nat) -> Next
    decreases budget,
{
    if budget == 0 {
        Next::StopFull
    } else if predictions.len() == 0 {
        Next::Continue
    } else if predictions[0].nan_count > 0 {
        Next::StopNan
    } else if predictions[0].best_token == ENDOFTEXT {
        Next::StopEndOfText
    } else {
        stopped_by(predictions.skip(1), (budget - 1) as nat)
    }
}

/// Runs the generation over predictions that are there already, and reports the tokens
/// and what stopped it.
pub fn generate(prompt: Vec<u32>, predictions: &Vec<Prediction>) -> (r: (Vec<u32>, Next))
    requires
        0 < prompt@.len() <= GENERATION_SEQ,
    ensures
        r.0@ == generated_by(predictions@, token_budget(prompt@.len() as int) as nat),
        r.1 == stopped_by(predictions@, token_budget(prompt@.len() as int) as nat),
{
    let ghost prompt_len = prompt@.len() as int;
    let mut g = Generation::new(prompt);
    let ghost budget = g.left as nat;
    let ghost want = generated_by(predictions@, budget);
    let ghost stop = stopped_by(predictions@, budget);
    if g.left == 0 {
        assert(g.generated@ =~= want);
        return (g.generated, Next::StopFull);
    }
    let mut i: usize = 0;
    assert(predictions@.skip(0) =~= predictions@);
    assert(want =~= g.generated@ + generated_by(predictions@.skip(0), g.left as nat));
    while i < predictions.len()
        invariant
            g.wf(),
            g.left > 0,
            i <= predictions@.len(),
            want == generated_by(predictions@, budget),
            stop == stopped_by(predictions@, budget),
            prompt_len == prompt@.len(),
            budget == token_budget(prompt_len),
            stop == stopped_by(predictions@.skip(i as int), g.left as nat),
            want == g.generated@ + generated_by(predictions@.skip(i as int), g.left as nat),
        decreases predictions@.len() - i,
    {
        let ghost rest = predictions@.skip(i as int);
        let ghost before = g.generated@;
        assert(rest[0] == predictions@[i as int]);
        assert(rest.skip(1) =~= predictions@.skip(i + 1));
        let next = g.advance(&predictions[i]);
        match next {
            Next::Continue => {
                assert(want =~= g.generated@ + generated_by(
                    predictions@.skip(i + 1),
                    g.left as nat,
                ));
            },
            _ => {
                assert(generated_by(predictions@.skip(i + 1), 0nat) =~= Seq::<u32>::empty());
                assert(stopped_by(predictions@.skip(i + 1), 0nat) == Next::StopFull);
                assert(g.generated@ =~= want);
                return (g.generated, next);
            },
        }
        i += 1;
    }
    assert(g.generated@ =~= want);
    (g.generated, Next::Continue)
}

/// A text never ends with more tokens than there are rows, and never holds the end mark.
pub proof fn generation_stays_in_bounds(predictions: Seq<Prediction>, budget: nat, i: int)
    ensures
        generated_by(predictions, budget).len() <= budget,
        0 <= i < generated_by(predictions, budget).len() ==> generated_by(predictions, budget)[i]
            != ENDOFTEXT,
    decreases budget,
{
    if !(budget == 0 || predictions.len() == 0 || predictions[0].nan_count > 0
        || predictions[0].best_token == ENDOFTEXT) {
        generation_stays_in_bounds(predictions.skip(1), (budget - 1) as nat, i - 1);
    }
}

} // verus!
