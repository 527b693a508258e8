//! The shape of a float model.

use crate::tensor::Number;
use vstd::prelude::*;

verus! {

/// What a layer attends: a window of the last positions, or all of them.
#[derive(Clone, Copy, PartialEq, Eq, Structural)]
pub enum LayerType {
    SlidingAttention,
    FullAttention,
}

/// The shape of a float model.
pub struct Gemma4TextConfig {
    pub vocab_size: usize,
    pub hidden_size: usize,
    pub intermediate_size: usize,
    pub num_hidden_layers: usize,
    pub num_attention_heads: usize,
    pub num_key_value_heads: usize,
    /// The key heads of full layers whose values share the keys' projection.
    pub num_global_key_value_heads: Option<usize>,
    /// The head size of sliding layers.
    pub head_dim: usize,
    /// The head size of full layers.
    pub global_head_dim: usize,
    pub attention_bias: bool,
    /// In full layers the values share the keys' projection.
    pub attention_k_eq_v: bool,
    /// So many layers at the end share the keys and values of earlier ones.
    pub num_kv_shared_layers: usize,
    pub use_double_wide_mlp: bool,
    pub rms_norm_eps: Number,
    pub hidden_activation: candle_nn::Activation,
    /// One entry per layer.
    pub layer_types: Vec<LayerType>,
    /// The window of the masks of sliding layers.
    pub sliding_window: usize,
    /// The number of positions that the caches of sliding layers hold.
    pub effective_sliding_window: usize,
    pub max_position_embeddings: usize,
    pub rope_theta: Number,
    pub rope_local_base_freq: Number,
    /// The share of a full layer's head that rotates.
    pub partial_rotary_factor: Number,
    /// 0 for a model without per-layer inputs.
    pub hidden_size_per_layer_input: usize,
    pub vocab_size_per_layer_input: usize,
    pub tie_word_embeddings: bool,
    pub final_logit_softcapping: Option<Number>,
    pub enable_moe_block: bool,
    pub num_experts: Option<usize>,
    pub top_k_experts: Option<usize>,
    pub moe_intermediate_size: Option<usize>,
    pub use_flash_attn: bool,
}

/// The last of the first `n` layers that is of a type.
pub open spec fn last_of_type(types: Seq<LayerType>, n: int, of: LayerType) -> Option<int>
    decreases n,
{
    if n <= 0 {
        None
    } else if types[n - 1] == of {
        Some(n - 1)
    } else {
        last_of_type(types, n - 1, of)
    }
}

impl Gemma4TextConfig {
    /// Layer `i` attends a window.
    pub open spec fn slides(&self, i: int) -> bool {
        self.layer_types@[i] == LayerType::SlidingAttention
    }

    /// The first layer that shares an earlier layer's keys and values.
    pub open spec fn first_shared(&self) -> int {
        if self.num_hidden_layers > self.num_kv_shared_layers {
            self.num_hidden_layers - self.num_kv_shared_layers
        } else {
            0
        }
    }

    /// The head size of layer `i`.
    pub open spec fn head_dim_of(&self, i: int) -> usize {
        if self.slides(i) {
            self.head_dim
        } else {
            self.global_head_dim
        }
    }

    /// In layer `i` the values share the keys' projection.
    pub open spec fn k_is_v(&self, i: int) -> bool {
        self.attention_k_eq_v && !self.slides(i)
    }

    /// The key heads of layer `i`, where they are known.
    pub open spec fn kv_heads_of(&self, i: int) -> Option<usize> {
        if self.k_is_v(i) {
            self.num_global_key_value_heads
        } else {
            Some(self.num_key_value_heads)
        }
    }

    /// Layer `i` puts its keys and values aside: it is the last of its type that does not share.
    pub open spec fn is_donor(&self, i: int) -> bool {
        i < self.first_shared() && last_of_type(
            self.layer_types@,
            self.first_shared(),
            self.layer_types@[i],
        ) == Some(i)
    }

    /// The inner size of layer `i`'s dense block: twice as wide on layers that share, where the
    /// model says so.
    pub open spec fn inner_size_of(&self, i: int) -> int {
        if self.use_double_wide_mlp && 0 < self.first_shared() <= i {
            self.intermediate_size * 2
        } else {
            self.intermediate_size as int
        }
    }

    /// Whether layer `i` attends a window.
    pub fn is_sliding(&self, i: usize) -> (r: bool)
        requires
            i < self.layer_types@.len(),
        ensures
            r == self.slides(i as int),
    {
        match self.layer_types[i] {
            LayerType::SlidingAttention => true,
            LayerType::FullAttention => false,
        }
    }

    /// The first layer that shares an earlier layer's keys and values.
    pub fn first_shared_layer(&self) -> (r: usize)
        ensures
            r == self.first_shared(),
            r <= self.num_hidden_layers,
    {
        if self.num_hidden_layers > self.num_kv_shared_layers {
            self.num_hidden_layers - self.num_kv_shared_layers
        } else {
            0
        }
    }

    /// Whether layer `i` puts its keys and values aside.
    pub fn puts_aside(&self, i: usize) -> (r: bool)
        requires
            i < self.num_hidden_layers <= self.layer_types@.len(),
        ensures
            r == self.is_donor(i as int),
    {
        let first: usize = self.first_shared_layer();
        if i >= first {
            return false;
        }
        let mut n: usize = first;
        while n > 0
            invariant
                n <= first,
                i < first,
                first == self.first_shared(),
                first <= self.num_hidden_layers <= self.layer_types@.len(),
                last_of_type(self.layer_types@, first as int, self.layer_types@[i as int])
                    == last_of_type(self.layer_types@, n as int, self.layer_types@[i as int]),
            decreases n,
        {
            if self.layer_types[n - 1] == self.layer_types[i] {
                return n - 1 == i;
            }
            n = n - 1;
        }
        false
    }
}

/// The last of a type is of that type, lies among the first `n`, and none of that type comes after
/// it; and there is one as soon as any of them is of that type.
pub proof fn law_donor_is_last_of_its_type(types: Seq<LayerType>, n: int, of: LayerType)
    ensures
        match last_of_type(types, n, of) {
            Some(d) => {
                &&& 0 <= d < n
                &&& types[d] == of
                &&& forall|i: int| d < i < n ==> #[trigger] types[i] != of
            },
            None => forall|i: int| 0 <= i < n ==> #[trigger] types[i] != of,
        },
    decreases n,
{
    if n > 0 && types[n - 1] != of {
        law_donor_is_last_of_its_type(types, n - 1, of);
    }
}

/// As many layers at the end share keys and values as the shape says, or all where it says more.
pub proof fn law_the_last_layers_share(cfg: Gemma4TextConfig)
    ensures
        0 <= cfg.first_shared() <= cfg.num_hidden_layers,
        cfg.num_kv_shared_layers <= cfg.num_hidden_layers ==> cfg.first_shared()
            + cfg.num_kv_shared_layers == cfg.num_hidden_layers,
        cfg.num_kv_shared_layers > cfg.num_hidden_layers ==> cfg.first_shared() == 0,
{
}

/// What a layer's kind decides: a sliding layer has the heads and the head size of sliding layers; a
/// full one has its own head size, and where values share the keys' projection its own number of
/// heads for them. Only layers that share have a dense block twice as wide, and only where the shape
/// says so and some layer does not share.
pub proof fn law_kinds_decide(cfg: Gemma4TextConfig, i: int)
    ensures
        cfg.layer_types@[i] == LayerType::SlidingAttention ==> cfg.head_dim_of(i) == cfg.head_dim
            && cfg.kv_heads_of(i) == Some(cfg.num_key_value_heads) && !cfg.k_is_v(i),
        cfg.layer_types@[i] == LayerType::FullAttention ==> cfg.head_dim_of(i)
            == cfg.global_head_dim && cfg.k_is_v(i) == cfg.attention_k_eq_v && cfg.kv_heads_of(i)
            == (if cfg.attention_k_eq_v {
            cfg.num_global_key_value_heads
        } else {
            Some(cfg.num_key_value_heads)
        }),
        cfg.inner_size_of(i) == cfg.intermediate_size || cfg.inner_size_of(i) == 2
            * cfg.intermediate_size,
        i < cfg.first_shared() || !cfg.use_double_wide_mlp || cfg.first_shared() == 0
            ==> cfg.inner_size_of(i) == cfg.intermediate_size,
        i >= cfg.first_shared() > 0 && cfg.use_double_wide_mlp ==> cfg.inner_size_of(i) == 2
            * cfg.intermediate_size,
{
}

} // verus!
