//! The prompt that the inference engine is given, and the bookkeeping of a
//! generation: where each new token goes and when generation stops.
use vstd::prelude::*;
use crate::text::{concat, concat_spec};

verus! {

/// The ChatML conversation for a prompt: an optional system turn holding the
/// context, the user turn holding the prompt, and an open assistant turn.
pub open spec fn chatml_prompt_spec(raw: Seq<char>, context: Option<Seq<char>>) -> Seq<char> {
    match context {
        Some(ctx) => "<|im_start|>system\n"@ + ctx + "\n<|im_end|>\n<|im_start|>user\n"@ + raw
            + "<|im_end|>\n<|im_start|>assistant\n"@,
        None => "<|im_start|>user\n"@ + raw + "<|im_end|>\n<|im_start|>assistant\n"@,
    }
}

/// Builds the ChatML conversation for a prompt and an optional context.
pub fn chatml_prompt(raw_prompt: &str, context_text: Option<&str>) -> (r: String)
    ensures
        r@ == chatml_prompt_spec(
            raw_prompt@,
            match context_text {
                Some(c) => Some(c@),
                None => None,
            },
        ),
{
    match context_text {
        Some(ctx) => {
            let parts = vec![
                "<|im_start|>system\n",
                ctx,
                "\n<|im_end|>\n<|im_start|>user\n",
                raw_prompt,
                "<|im_end|>\n<|im_start|>assistant\n",
            ];
            let r = concat(&parts);
            proof {
                reveal_with_fuel(concat_spec, 6);
                let v = Seq::new(parts@.len(), |i: int| parts@[i]@);
                assert(v.drop_last().drop_last().drop_last().drop_last().drop_last() =~= Seq::<Seq<char>>::empty());
                assert(concat_spec(v) =~= chatml_prompt_spec(raw_prompt@, Some(ctx@)));
            }
            r
        },
        None => {
            let parts = vec!["<|im_start|>user\n", raw_prompt, "<|im_end|>\n<|im_start|>assistant\n"];
            let r = concat(&parts);
            proof {
                reveal_with_fuel(concat_spec, 4);
                let v = Seq::new(parts@.len(), |i: int| parts@[i]@);
                assert(v.drop_last().drop_last().drop_last() =~= Seq::<Seq<char>>::empty());
                assert(concat_spec(v) =~= chatml_prompt_spec(raw_prompt@, None));
            }
            r
        },
    }
}

/// The most tokens a prompt may have (the size of the batch).
pub const MAX_PROMPT_TOKENS: i32 = 2048;

/// The most decoding rounds after the prompt, each of which may add a token.
pub const MAX_GENERATED: i32 = 250;

/// The ChatML end-of-turn token, which ends a generation like end-of-stream.
pub const IM_END_TOKEN: i32 = 151645;

/// Whether a sampled token ends the generation.
pub open spec fn is_stop_token_spec(token: i32, eos: i32) -> bool {
    token == eos || token == IM_END_TOKEN
}

/// Whether the sampled token ends the generation.
pub fn is_stop_token(token: i32, eos: i32) -> (b: bool)
    ensures
        b == is_stop_token_spec(token, eos),
{
    token == eos || token == IM_END_TOKEN
}

/// Whether the prompt token at `i` (of `n`) asks for logits: only the last does.
pub fn wants_logits(i: usize, n: usize) -> (b: bool)
    requires
        i < n,
    ensures
        b == (i + 1 == n),
{
    i + 1 == n
}

/// A generation in progress: how many tokens the prompt had, the position the
/// next token takes, and every token so far (prompt, then generated).
pub struct Generation {
    pub prompt_tokens: i32,
    pub next_pos: i32,
    pub history: Vec<i32>,
}

impl Generation {
    /// The prompt fits the batch, and each position after it holds one
    /// generated token.
    pub open spec fn wf(&self) -> bool {
        &&& 0 < self.prompt_tokens <= MAX_PROMPT_TOKENS
        &&& self.prompt_tokens <= self.next_pos <= self.prompt_tokens + MAX_GENERATED + 1
        &&& self.history@.len() == self.next_pos
    }

    /// How many tokens were generated so far.
    pub open spec fn generated(&self) -> int {
        self.next_pos - self.prompt_tokens
    }

    /// A generation after the prompt tokens.
    pub fn start(prompt: &Vec<i32>) -> (g: Generation)
        requires
            0 < prompt@.len() <= MAX_PROMPT_TOKENS,
        ensures
            g.wf(),
            g.prompt_tokens == prompt@.len(),
            g.next_pos == prompt@.len(),
            g.history@ == prompt@,
    {
        let n = prompt.len() as i32;
        Generation { prompt_tokens: n, next_pos: n, history: prompt.clone() }
    }

    /// Whether another decoding round may run.
    pub fn may_decode(&self) -> (b: bool)
        requires
            self.wf(),
        ensures
            b == (self.next_pos <= self.prompt_tokens + MAX_GENERATED),
    {
        self.next_pos <= self.prompt_tokens + MAX_GENERATED
    }

    /// Records a generated token, and returns the position it takes.
    pub fn accept(&mut self, token: i32) -> (pos: i32)
        requires
            old(self).wf(),
            old(self).next_pos <= old(self).prompt_tokens + MAX_GENERATED,
        ensures
            final(self).wf(),
            pos == old(self).next_pos,
            final(self).prompt_tokens == old(self).prompt_tokens,
            final(self).next_pos == old(self).next_pos + 1,
            final(self).history@ == old(self).history@.push(token),
    {
        let pos = self.next_pos;
        self.history.push(token);
        self.next_pos = self.next_pos + 1;
        pos
    }
}

/// However a generation goes (every operation keeps `wf`), it holds at most
/// `MAX_GENERATED + 1` tokens after the prompt.
pub proof fn law_generation_bounded(g: Generation)
    requires
        g.wf(),
    ensures
        0 <= g.generated() <= MAX_GENERATED + 1,
        g.history@.len() <= g.prompt_tokens + MAX_GENERATED + 1,
{
}

} // verus!
