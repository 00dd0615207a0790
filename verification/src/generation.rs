//! The decisions of the token generation loop: when to stop, what the reply
//! collects, and what is answered when the model produced nothing. The model
//! itself (tokenising, decoding, sampling) runs outside and reports each
//! sampled token here.
use vstd::prelude::*;
use crate::text::{chars_of, concat_str, string_of};

verus! {

/// The size of the context window, in tokens.
pub const CONTEXT_TOKENS: usize = 2048;

/// The reply given when the model produced no text at all.
pub open spec fn empty_reply_text() -> Seq<char> {
    "The model did not generate any text. Please check the model files."@
}

/// A generation in progress: the text so far, the position of the next
/// token in the context, how many tokens were sampled, and the limit.
pub struct Generation {
    response: String,
    n_cur: usize,
    steps: usize,
    max_tokens: usize,
    done: bool,
}

/// A generation, over mathematical values.
pub struct GenerationModel {
    pub response: Seq<char>,
    pub n_cur: nat,
    pub steps: nat,
    pub max_tokens: nat,
    pub done: bool,
}

impl View for Generation {
    type V = GenerationModel;

    closed spec fn view(&self) -> GenerationModel {
        GenerationModel {
            response: self.response@,
            n_cur: self.n_cur as nat,
            steps: self.steps as nat,
            max_tokens: self.max_tokens as nat,
            done: self.done,
        }
    }
}

/// What a sampled token does to the generation: an end-of-generation token
/// or a stop request ends it; otherwise its text is added, the position
/// advances, and the generation ends once the context is full or the token
/// limit is reached.
pub open spec fn accept_model(g: GenerationModel, is_eog: bool, stop: bool, piece: Seq<char>) -> GenerationModel {
    if g.done {
        g
    } else if is_eog || stop {
        GenerationModel { done: true, ..g }
    } else {
        let n = g.n_cur + 1;
        let s = g.steps + 1;
        GenerationModel {
            response: g.response + piece,
            n_cur: n,
            steps: s,
            max_tokens: g.max_tokens,
            done: n >= CONTEXT_TOKENS || s >= g.max_tokens,
        }
    }
}

/// The reply of a finished generation: its text, or the notice that there
/// was none.
pub open spec fn final_reply(response: Seq<char>) -> Seq<char> {
    if response.len() == 0 {
        empty_reply_text()
    } else {
        response
    }
}

impl Generation {
    #[verifier::type_invariant]
    closed spec fn inv(&self) -> bool {
        &&& self.n_cur <= CONTEXT_TOKENS + 1
        &&& !self.done ==> self.n_cur <= CONTEXT_TOKENS
        &&& self.steps <= self.max_tokens
        &&& self.steps >= self.max_tokens ==> self.done
    }

    /// A generation after a prompt of `prompt_tokens` tokens (the prompt batch
    /// holds at most the context window), sampling at most `max_tokens`
    /// tokens (none when it is not positive).
    pub fn start(prompt_tokens: usize, max_tokens: i32) -> (r: Generation)
        requires
            prompt_tokens <= CONTEXT_TOKENS,
        ensures
            r@.response.len() == 0,
            r@.steps == 0,
            r@.n_cur == prompt_tokens,
            r@.max_tokens == (if max_tokens > 0 { max_tokens as nat } else { 0 }),
            r@.done == (max_tokens <= 0),
    {
        let m: usize = if max_tokens > 0 {
            max_tokens as usize
        } else {
            0
        };
        Generation { response: String::new(), n_cur: prompt_tokens, steps: 0, max_tokens: m, done: m == 0 }
    }

    /// Whether another token is to be sampled.
    pub fn wants_token(&self) -> (r: bool)
        ensures
            r == !self@.done,
    {
        !self.done
    }

    /// The position in the context of the next token.
    pub fn position(&self) -> (r: usize)
        ensures
            r == self@.n_cur,
    {
        self.n_cur
    }

    /// Report a sampled token: whether it ends the generation, whether a stop
    /// was requested, and its text. Returns whether the text is to be shown.
    pub fn accept(&mut self, is_eog: bool, stop: bool, piece: &str) -> (r: bool)
        ensures
            final(self)@ == accept_model(old(self)@, is_eog, stop, piece@),
            r == (!old(self)@.done && !is_eog && !stop),
    {
        proof {
            use_type_invariant(&*self);
        }
        if self.done {
            return false;
        }
        if is_eog || stop {
            self.done = true;
            return false;
        }
        let response = concat_str(self.response.as_str(), piece);
        let n = self.n_cur + 1;
        let s = self.steps + 1;
        let done = n >= CONTEXT_TOKENS || s >= self.max_tokens;
        *self = Generation { response, n_cur: n, steps: s, max_tokens: self.max_tokens, done };
        true
    }

    /// The reply, once generation has ended.
    pub fn reply(&self) -> (r: String)
        ensures
            r@ == final_reply(self@.response),
    {
        let v = chars_of(self.response.as_str());
        if v.len() == 0 {
            string_of(&chars_of("The model did not generate any text. Please check the model files."))
        } else {
            string_of(&v)
        }
    }
}

/// Once a generation has ended, reported tokens change nothing.
pub proof fn law_ended_generation_is_final(g: GenerationModel, is_eog: bool, stop: bool, piece: Seq<char>)
    requires
        g.done,
    ensures
        accept_model(g, is_eog, stop, piece) == g,
{
}

/// A generation never samples more tokens than its limit, nor goes on once
/// the context window is full: each accepted token counts, and reaching
/// either bound ends it.
pub proof fn law_generation_bounded(g: GenerationModel, is_eog: bool, stop: bool, piece: Seq<char>)
    requires
        g.steps <= g.max_tokens,
        g.steps >= g.max_tokens ==> g.done,
        !g.done ==> g.n_cur <= CONTEXT_TOKENS,
    ensures
        ({
            let h = accept_model(g, is_eog, stop, piece);
            &&& h.steps <= h.max_tokens
            &&& h.steps >= h.max_tokens ==> h.done
            &&& h.n_cur >= CONTEXT_TOKENS && h.n_cur != g.n_cur ==> h.done
            &&& !h.done ==> h.n_cur <= CONTEXT_TOKENS
        }),
{
}

} // verus!
