//! Text generation: which model to fetch, what goes into each forward pass, and when to stop.

use vstd::prelude::*;

verus! {

/// The models that can be fetched.
#[derive(Clone, Copy, PartialEq, Eq, Structural)]
pub enum Which {
    Gemma4E2b,
    Gemma4E4b,
    Gemma4_12b,
    Gemma4_31b,
    Gemma4_26bA4b,
}

/// Where a model comes from: the repository and file of its weights, and the repository of its
/// tokenizer, which the former does not hold.
pub struct HubNames {
    pub weights_repo: &'static str,
    pub weights_file: &'static str,
    pub tokenizer_repo: &'static str,
}

impl Which {
    /// Where the model comes from.
    pub open spec fn names(self) -> (Seq<char>, Seq<char>, Seq<char>) {
        match self {
            Which::Gemma4E2b => (
                "google/gemma-4-E2B-it-qat-q4_0-gguf"@,
                "gemma-4-E2B_q4_0-it.gguf"@,
                "google/gemma-4-E2B-it"@,
            ),
            Which::Gemma4E4b => (
                "google/gemma-4-E4B-it-qat-q4_0-gguf"@,
                "gemma-4-E4B_q4_0-it.gguf"@,
                "google/gemma-4-E4B-it"@,
            ),
            Which::Gemma4_12b => (
                "google/gemma-4-12B-it-qat-q4_0-gguf"@,
                "gemma-4-12b-it-qat-q4_0.gguf"@,
                "google/gemma-4-12B-it"@,
            ),
            Which::Gemma4_31b => (
                "google/gemma-4-31B-it-qat-q4_0-gguf"@,
                "gemma-4-31B_q4_0-it.gguf"@,
                "google/gemma-4-31B-it"@,
            ),
            Which::Gemma4_26bA4b => (
                "google/gemma-4-26B-A4B-it-qat-q4_0-gguf"@,
                "gemma-4-26B_q4_0-it.gguf"@,
                "google/gemma-4-26B-A4B-it"@,
            ),
        }
    }

    /// Where the model comes from.
    pub fn hub_names(&self) -> (r: HubNames)
        ensures
            (r.weights_repo@, r.weights_file@, r.tokenizer_repo@) == self.names(),
    {
        match self {
            Which::Gemma4E2b => HubNames {
                weights_repo: "google/gemma-4-E2B-it-qat-q4_0-gguf",
                weights_file: "gemma-4-E2B_q4_0-it.gguf",
                tokenizer_repo: "google/gemma-4-E2B-it",
            },
            Which::Gemma4E4b => HubNames {
                weights_repo: "google/gemma-4-E4B-it-qat-q4_0-gguf",
                weights_file: "gemma-4-E4B_q4_0-it.gguf",
                tokenizer_repo: "google/gemma-4-E4B-it",
            },
            Which::Gemma4_12b => HubNames {
                weights_repo: "google/gemma-4-12B-it-qat-q4_0-gguf",
                weights_file: "gemma-4-12b-it-qat-q4_0.gguf",
                tokenizer_repo: "google/gemma-4-12B-it",
            },
            Which::Gemma4_31b => HubNames {
                weights_repo: "google/gemma-4-31B-it-qat-q4_0-gguf",
                weights_file: "gemma-4-31B_q4_0-it.gguf",
                tokenizer_repo: "google/gemma-4-31B-it",
            },
            Which::Gemma4_26bA4b => HubNames {
                weights_repo: "google/gemma-4-26B-A4B-it-qat-q4_0-gguf",
                weights_file: "gemma-4-26B_q4_0-it.gguf",
                tokenizer_repo: "google/gemma-4-26B-A4B-it",
            },
        }
    }
}

/// The tokenizer of a model comes from the repository that its packed weights are made from, and no
/// two models come from the same place.
pub proof fn law_weights_are_packed_of_the_tokenizers_model(a: Which, b: Which)
    ensures
        a.names().0 == a.names().2 + "-qat-q4_0-gguf"@,
        a.names().2 == b.names().2 ==> a == b,
        a.names().1 == b.names().1 ==> a == b,
        ".gguf"@.is_suffix_of(a.names().1),
{
    reveal_strlit("-qat-q4_0-gguf");
    reveal_strlit(".gguf");
    reveal_strlit("google/gemma-4-E2B-it-qat-q4_0-gguf");
    reveal_strlit("gemma-4-E2B_q4_0-it.gguf");
    reveal_strlit("google/gemma-4-E2B-it");
    reveal_strlit("google/gemma-4-E4B-it-qat-q4_0-gguf");
    reveal_strlit("gemma-4-E4B_q4_0-it.gguf");
    reveal_strlit("google/gemma-4-E4B-it");
    reveal_strlit("google/gemma-4-12B-it-qat-q4_0-gguf");
    reveal_strlit("gemma-4-12b-it-qat-q4_0.gguf");
    reveal_strlit("google/gemma-4-12B-it");
    reveal_strlit("google/gemma-4-31B-it-qat-q4_0-gguf");
    reveal_strlit("gemma-4-31B_q4_0-it.gguf");
    reveal_strlit("google/gemma-4-31B-it");
    reveal_strlit("google/gemma-4-26B-A4B-it-qat-q4_0-gguf");
    reveal_strlit("gemma-4-26B_q4_0-it.gguf");
    reveal_strlit("google/gemma-4-26B-A4B-it");
    assert(a.names().0 =~= a.names().2 + "-qat-q4_0-gguf"@);
    let (x, y) = (a.names().2, b.names().2);
    assert(x == y ==> x.len() == y.len() && x[15] == y[15] && x[16] == y[16] && x[17] == y[17]);
    let (x, y) = (a.names().1, b.names().1);
    assert(x == y ==> x.len() == y.len() && x[8] == y[8] && x[9] == y[9] && x[10] == y[10]);
    assert(x.subrange(x.len() - 5, x.len() as int) =~= ".gguf"@);
}

/// How the next token is drawn. Where a probability cutoff takes part the caller holds it.
#[derive(Clone, Copy, PartialEq, Eq, Structural)]
pub enum Sampling {
    /// The most probable token.
    ArgMax,
    /// Any token.
    All,
    /// One of the `k` most probable tokens.
    TopK { k: usize },
    /// One of the most probable tokens that reach the cutoff together.
    TopP,
    /// Among the `k` most probable tokens, one of those that reach the cutoff together.
    TopKThenTopP { k: usize },
}

impl Sampling {
    /// How many of the most probable tokens are drawn from, where there is a limit.
    pub open spec fn limit(self) -> Option<usize> {
        match self {
            Sampling::TopK { k } => Some(k),
            Sampling::TopKThenTopP { k } => Some(k),
            _ => None,
        }
    }

    /// A probability cutoff takes part.
    pub open spec fn has_cutoff(self) -> bool {
        self is TopP || self is TopKThenTopP
    }
}

/// How the next token is drawn: without a temperature above zero the most probable one, else as the
/// limits say.
pub fn choose_sampling(is_warm: bool, top_k: Option<usize>, has_top_p: bool) -> (r: Sampling)
    ensures
        r is ArgMax <==> !is_warm,
        is_warm ==> r.limit() == top_k,
        is_warm ==> r.has_cutoff() == has_top_p,
        r == (if !is_warm {
            Sampling::ArgMax
        } else {
            match (top_k, has_top_p) {
                (None, false) => Sampling::All,
                (Some(k), false) => Sampling::TopK { k },
                (None, true) => Sampling::TopP,
                (Some(k), true) => Sampling::TopKThenTopP { k },
            }
        }),
{
    if !is_warm {
        return Sampling::ArgMax;
    }
    match (top_k, has_top_p) {
        (None, false) => Sampling::All,
        (Some(k), false) => Sampling::TopK { k },
        (None, true) => Sampling::TopP,
        (Some(k), true) => Sampling::TopKThenTopP { k },
    }
}

/// The prompt with the token that begins every text in front, where there is such a token and it
/// does not stand there yet.
pub open spec fn led_by(tokens: Seq<u32>, bos: Option<u32>) -> Seq<u32> {
    match bos {
        Some(b) if tokens.len() == 0 || tokens[0] != b => seq![b] + tokens,
        _ => tokens,
    }
}

/// A generation under way: the tokens so far, how many of them were generated, and what ends it.
pub struct Generation {
    tokens: Vec<u32>,
    generated: usize,
    sample_len: usize,
    eos: u32,
    end_of_turn: u32,
    ended: bool,
}

/// What contracts see of a generation.
#[verifier::ext_equal]
pub ghost struct GenerationView {
    pub tokens: Seq<u32>,
    pub generated: nat,
    pub sample_len: nat,
    pub ends: (u32, u32),
    pub ended: bool,
}

impl GenerationView {
    /// There is another token to generate.
    pub open spec fn goes_on(self) -> bool {
        !self.ended && self.generated < self.sample_len
    }

    /// The position of the first token that the next forward pass takes: the whole prompt at first,
    /// then the last token alone.
    pub open spec fn start(self) -> int {
        if self.generated == 0 || self.tokens.len() == 0 {
            0
        } else {
            self.tokens.len() - 1
        }
    }

    /// The tokens that the next forward pass takes.
    pub open spec fn context(self) -> Seq<u32> {
        self.tokens.skip(self.start())
    }

    /// A token was generated; it may be one that ends the text.
    pub open spec fn push(self, token: u32) -> GenerationView {
        GenerationView {
            tokens: self.tokens.push(token),
            generated: self.generated + 1,
            ended: token == self.ends.0 || token == self.ends.1,
            ..self
        }
    }

    /// The last tokens, which are not to come again.
    pub open spec fn recent(self, last_n: usize) -> Seq<u32> {
        if self.tokens.len() > last_n {
            self.tokens.skip(self.tokens.len() - last_n)
        } else {
            self.tokens
        }
    }
}

/// The entries of a list from an index on.
fn tail(tokens: &Vec<u32>, start: usize) -> (r: Vec<u32>)
    requires
        start <= tokens@.len(),
    ensures
        r@ == tokens@.skip(start as int),
{
    let mut out: Vec<u32> = Vec::new();
    let mut i: usize = start;
    while i < tokens.len()
        invariant
            start <= i <= tokens@.len(),
            out@ == tokens@.subrange(start as int, i as int),
        decreases tokens@.len() - i,
    {
        out.push(tokens[i]);
        i = i + 1;
        assert(out@ =~= tokens@.subrange(start as int, i as int));
    }
    assert(out@ =~= tokens@.skip(start as int));
    out
}

impl Generation {
    /// What contracts see.
    pub closed spec fn view(&self) -> GenerationView {
        GenerationView {
            tokens: self.tokens@,
            generated: self.generated as nat,
            sample_len: self.sample_len as nat,
            ends: (self.eos, self.end_of_turn),
            ended: self.ended,
        }
    }

    /// A generation of at most `sample_len` tokens behind a prompt.
    pub fn new(
        prompt: Vec<u32>,
        bos: Option<u32>,
        eos: u32,
        end_of_turn: u32,
        sample_len: usize,
    ) -> (r: Generation)
        ensures
            r@ == (GenerationView {
                tokens: led_by(prompt@, bos),
                generated: 0,
                sample_len: sample_len as nat,
                ends: (eos, end_of_turn),
                ended: false,
            }),
    {
        let tokens = match bos {
            Some(b) => if prompt.len() == 0 || prompt[0] != b {
                let mut tokens: Vec<u32> = Vec::new();
                let mut prompt = prompt;
                tokens.push(b);
                let ghost rest = prompt@;
                tokens.append(&mut prompt);
                assert(tokens@ =~= seq![b] + rest);
                tokens
            } else {
                prompt
            },
            None => prompt,
        };
        Generation { tokens, generated: 0, sample_len, eos, end_of_turn, ended: false }
    }

    /// All tokens so far.
    pub fn tokens(&self) -> (r: &Vec<u32>)
        ensures
            r@ == self@.tokens,
    {
        &self.tokens
    }

    /// How many tokens were generated.
    pub fn generated(&self) -> (r: usize)
        ensures
            r == self@.generated,
    {
        self.generated
    }

    /// What the next forward pass takes, and the position of its first token, where there is another
    /// token to generate.
    pub fn next_pass(&self) -> (r: Option<(Vec<u32>, usize)>)
        ensures
            match r {
                Some((context, start)) => self@.goes_on() && context@ == self@.context() && start
                    == self@.start(),
                None => !self@.goes_on(),
            },
    {
        if self.ended || self.generated >= self.sample_len {
            return None;
        }
        let start: usize = if self.generated == 0 || self.tokens.len() == 0 {
            0
        } else {
            self.tokens.len() - 1
        };
        Some((tail(&self.tokens, start), start))
    }

    /// The last `last_n` tokens, or all of them where there are fewer.
    pub fn recent(&self, last_n: usize) -> (r: Vec<u32>)
        ensures
            r@ == self@.recent(last_n),
            r@.is_suffix_of(self@.tokens),
            r@.len() == (if last_n <= self@.tokens.len() {
                last_n as nat
            } else {
                self@.tokens.len()
            }),
    {
        let start: usize = if self.tokens.len() > last_n {
            self.tokens.len() - last_n
        } else {
            0
        };
        let out = tail(&self.tokens, start);
        assert(self.tokens@.skip(0) =~= self.tokens@);
        proof {
            law_recent_is_the_tail(self@, last_n);
        }
        out
    }

    /// Takes the token that was drawn. Gives whether it is to be shown: a token that ends the text
    /// is not.
    pub fn push(&mut self, token: u32) -> (r: bool)
        requires
            old(self)@.goes_on(),
        ensures
            final(self)@ == old(self)@.push(token),
            r == !final(self)@.ended,
    {
        self.tokens.push(token);
        self.generated = self.generated + 1;
        self.ended = token == self.eos || token == self.end_of_turn;
        !self.ended
    }
}

/// What is recent are the last tokens and no others, as many as are asked for or all there are,
/// however many of them were generated: the tokens end with them, and a token that lies further back
/// than that is not among them.
pub proof fn law_recent_is_the_tail(g: GenerationView, last_n: usize)
    ensures
        g.recent(last_n).is_suffix_of(g.tokens),
        last_n <= g.tokens.len() ==> g.recent(last_n).len() == last_n,
        last_n >= g.tokens.len() ==> g.recent(last_n) == g.tokens,
        forall|i: int|
            0 <= i < g.recent(last_n).len() ==> #[trigger] g.recent(last_n)[i]
                == g.tokens[g.tokens.len() - g.recent(last_n).len() + i],
{
    let r = g.recent(last_n);
    assert(r =~= g.tokens.subrange(g.tokens.len() - r.len(), g.tokens.len() as int));
}

/// What is recent follows the generation: a token that is generated comes in at the end, and the
/// oldest goes as soon as there are more than asked for.
pub proof fn law_recent_moves_on(g: GenerationView, token: u32, last_n: usize)
    requires
        last_n > 0,
    ensures
        g.push(token).recent(last_n).last() == token,
        g.tokens.len() < last_n ==> g.push(token).recent(last_n) == g.recent(last_n).push(token),
        g.tokens.len() >= last_n ==> g.push(token).recent(last_n) == g.recent(
            last_n,
        ).drop_first().push(token),
{
    law_recent_is_the_tail(g, last_n);
    law_recent_is_the_tail(g.push(token), last_n);
    let next = g.push(token).recent(last_n);
    assert(g.push(token).tokens == g.tokens.push(token));
    if g.tokens.len() < last_n {
        assert(next =~= g.recent(last_n).push(token));
    } else {
        assert(next =~= g.recent(last_n).drop_first().push(token));
    }
}

/// The first pass takes the whole prompt, whatever its length, from position 0 on; every pass behind
/// a generated token takes that token alone, at the position behind all others.
pub proof fn law_first_pass_takes_the_prompt(g: GenerationView, token: u32)
    ensures
        g.generated == 0 ==> g.start() == 0 && g.context() == g.tokens,
        g.push(token).context() == seq![token],
        g.push(token).start() == g.tokens.len(),
{
    assert(g.generated == 0 ==> g.context() =~= g.tokens);
    assert(g.push(token).context() =~= seq![token]);
}

/// A generated token goes behind the others and counts as one more; nothing else changes but
/// whether the text has ended, and it has exactly where the token is one of the two that end it.
pub proof fn law_tokens_are_kept(g: GenerationView, token: u32)
    ensures
        g.push(token).tokens.drop_last() == g.tokens,
        g.push(token).tokens.last() == token,
        g.push(token).tokens.len() == g.tokens.len() + 1,
        g.push(token).generated == g.generated + 1,
        g.push(token).sample_len == g.sample_len,
        g.push(token).ends == g.ends,
        g.push(token).ended <==> (token == g.ends.0 || token == g.ends.1),
{
    assert(g.push(token).tokens.drop_last() =~= g.tokens);
}

/// A generation goes on behind a token exactly where the token does not end the text and there are
/// tokens left to generate.
pub proof fn law_generation_goes_on(g: GenerationView, token: u32)
    requires
        g.goes_on(),
    ensures
        g.push(token).goes_on() <==> (token != g.ends.0 && token != g.ends.1 && g.generated + 1
            < g.sample_len),
{
}

/// A prompt is led by the token that begins every text, which stands there once: nothing else is
/// changed, and what is led already stays as it is.
pub proof fn law_prompt_is_led_once(tokens: Seq<u32>, bos: u32)
    ensures
        led_by(tokens, None) == tokens,
        led_by(tokens, Some(bos)).len() > 0,
        led_by(tokens, Some(bos))[0] == bos,
        tokens.is_suffix_of(led_by(tokens, Some(bos))),
        led_by(tokens, Some(bos)).len() <= tokens.len() + 1,
        tokens.len() > 0 && tokens[0] == bos ==> led_by(tokens, Some(bos)) == tokens,
        led_by(led_by(tokens, Some(bos)), Some(bos)) == led_by(tokens, Some(bos)),
{
    let led = led_by(tokens, Some(bos));
    assert(led.subrange(led.len() - tokens.len(), led.len() as int) =~= tokens);
}

/// A pass begins where the pass before it ended: the position that a lane has come to after a pass
/// over the context is where the next context begins. So a generation never asks a lane for a
/// position that it is not at.
pub proof fn law_passes_follow_on(g: GenerationView, token: u32)
    requires
        g.generated > 0 ==> g.tokens.len() > 0,
    ensures
        g.push(token).start() == g.start() + g.context().len(),
        g.push(token).context() == seq![token],
{
    assert(g.push(token).context() =~= seq![token]);
}

/// The contexts of a generation, one after the other, are the tokens: every token goes through the
/// model once and in order.
pub proof fn law_contexts_cover_tokens(g: GenerationView, token: u32)
    requires
        g.generated > 0 ==> g.tokens.len() > 0,
    ensures
        g.tokens.take(g.start()) + g.context() == g.tokens,
        g.push(token).tokens == g.tokens.take(g.start()) + g.context() + g.push(token).context(),
{
    law_passes_follow_on(g, token);
    assert(g.tokens.take(g.start()) + g.context() =~= g.tokens);
    assert(g.push(token).tokens =~= g.tokens + seq![token]);
}

/// A generation keeps to its length, and does not go on behind a token that ends the text.
pub proof fn law_generation_ends(g: GenerationView, token: u32)
    requires
        g.goes_on(),
    ensures
        g.push(token).generated <= g.sample_len,
        g.push(token).goes_on() ==> token != g.ends.0 && token != g.ends.1 && g.push(
            token,
        ).generated < g.sample_len,
{
}

/// The packed size of tensors: the entries of each, in blocks of so many entries and so many bytes.
pub struct TensorSize {
    pub entries: usize,
    pub block_bytes: usize,
    pub block_entries: usize,
}

/// The packed size of tensors in bytes.
pub open spec fn total_of(sizes: Seq<TensorSize>) -> int
    decreases sizes.len(),
{
    if sizes.len() == 0 {
        0
    } else {
        let last = sizes.last();
        total_of(sizes.drop_last()) + (last.entries * last.block_bytes) / last.block_entries as int
    }
}

/// The packed size of two lists of tensors together is the sum of their sizes, and that of one tensor
/// of whole blocks is the number of its blocks times the bytes of one.
pub proof fn law_sizes_add_up(a: Seq<TensorSize>, b: Seq<TensorSize>, one: TensorSize, blocks: nat)
    requires
        one.block_entries > 0,
        one.entries == blocks * one.block_entries,
    ensures
        total_of(a + b) == total_of(a) + total_of(b),
        total_of(seq![one]) == blocks * one.block_bytes,
    decreases b.len(),
{
    if b.len() == 0 {
        assert(a + b =~= a);
    } else {
        assert((a + b).drop_last() =~= a + b.drop_last());
        assert((a + b).last() == b.last());
        law_sizes_add_up(a, b.drop_last(), one, blocks);
    }
    assert(seq![one].drop_last() =~= Seq::<TensorSize>::empty());
    assert(total_of(Seq::<TensorSize>::empty()) == 0);
    let (n, e, y) = (blocks as int, one.block_entries as int, one.block_bytes as int);
    assert((n * e * y) / e == n * y) by (nonlinear_arith)
        requires
            e > 0,
    ;
}

/// Every block holds entries, and no product of entries and bytes is too large to be counted.
pub open spec fn can_be_sized(sizes: Seq<TensorSize>) -> bool {
    forall|i: int|
        0 <= i < sizes.len() ==> (#[trigger] sizes[i]).block_entries > 0 && sizes[i].entries
            * sizes[i].block_bytes <= usize::MAX
}

/// The total of a list is no smaller than that of its beginning.
proof fn lemma_total_of_prefix(sizes: Seq<TensorSize>, k: int)
    requires
        0 <= k <= sizes.len(),
        can_be_sized(sizes),
    ensures
        0 <= total_of(sizes.take(k)) <= total_of(sizes),
    decreases sizes.len(),
{
    if k == sizes.len() {
        assert(sizes.take(k) =~= sizes);
        if k > 0 {
            assert(can_be_sized(sizes.drop_last()));
            lemma_total_of_prefix(sizes.drop_last(), k - 1);
            let last = sizes[k - 1];
            assert((last.entries * last.block_bytes) / last.block_entries as int >= 0)
                by (nonlinear_arith)
                requires
                    last.block_entries > 0,
                    last.entries >= 0,
                    last.block_bytes >= 0,
            ;
        }
    } else {
        assert(can_be_sized(sizes.drop_last()));
        lemma_total_of_prefix(sizes.drop_last(), k);
        assert(sizes.drop_last().take(k) =~= sizes.take(k));
        let last = sizes.last();
        assert(sizes[sizes.len() - 1] == last);
        assert((last.entries * last.block_bytes) / last.block_entries as int >= 0)
            by (nonlinear_arith)
            requires
                last.block_entries > 0,
                last.entries >= 0,
                last.block_bytes >= 0,
        ;
    }
}

/// The packed size of tensors in bytes, where it can be counted.
pub fn total_size(sizes: &Vec<TensorSize>) -> (r: Option<usize>)
    ensures
        match r {
            Some(n) => can_be_sized(sizes@) && n == total_of(sizes@),
            None => !can_be_sized(sizes@) || total_of(sizes@) > usize::MAX,
        },
{
    let mut total: usize = 0;
    let mut i: usize = 0;
    while i < sizes.len()
        invariant
            i <= sizes@.len(),
            can_be_sized(sizes@.take(i as int)),
            total == total_of(sizes@.take(i as int)),
        decreases sizes@.len() - i,
    {
        let size = &sizes[i];
        assert(sizes@.take(i + 1).drop_last() =~= sizes@.take(i as int));
        assert(sizes@.take(i + 1).last() == *size);
        if size.block_entries == 0 {
            assert(!can_be_sized(sizes@)) by {
                assert(sizes@[i as int].block_entries == 0);
            }
            return None;
        }
        let bytes: usize = match size.entries.checked_mul(size.block_bytes) {
            Some(bytes) => bytes,
            None => {
                assert(!can_be_sized(sizes@)) by {
                    assert(sizes@[i as int].entries * sizes@[i as int].block_bytes > usize::MAX);
                }
                return None;
            },
        };
        assert(can_be_sized(sizes@.take(i + 1))) by {
            assert forall|j: int| 0 <= j < i + 1 implies (#[trigger] sizes@.take(
                i + 1,
            )[j]).block_entries > 0 && sizes@.take(i + 1)[j].entries * sizes@.take(
                i + 1,
            )[j].block_bytes <= usize::MAX by {
                if j < i {
                    assert(sizes@.take(i + 1)[j] == sizes@.take(i as int)[j]);
                }
            }
        }
        total = match total.checked_add(bytes / size.block_entries) {
            Some(sum) => sum,
            None => {
                proof {
                    if can_be_sized(sizes@) {
                        lemma_total_of_prefix(sizes@, i + 1);
                    }
                }
                return None;
            },
        };
        i = i + 1;
    }
    assert(sizes@.take(i as int) =~= sizes@);
    Some(total)
}

/// The unit that a size is written in.
#[derive(Clone, Copy, PartialEq, Eq, Structural)]
pub enum SizeUnit {
    Bytes,
    Kilobytes,
    Megabytes,
    Gigabytes,
}

/// The unit that a size is written in: the largest of which it holds at least one.
pub fn size_unit(size_in_bytes: usize) -> (r: SizeUnit)
    ensures
        r is Bytes <==> size_in_bytes < 1_000,
        r is Kilobytes <==> 1_000 <= size_in_bytes < 1_000_000,
        r is Megabytes <==> 1_000_000 <= size_in_bytes < 1_000_000_000,
        r is Gigabytes <==> 1_000_000_000 <= size_in_bytes,
{
    if size_in_bytes < 1_000 {
        SizeUnit::Bytes
    } else if size_in_bytes < 1_000_000 {
        SizeUnit::Kilobytes
    } else if size_in_bytes < 1_000_000_000 {
        SizeUnit::Megabytes
    } else {
        SizeUnit::Gigabytes
    }
}

} // verus!
