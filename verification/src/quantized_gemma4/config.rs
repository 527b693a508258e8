//! The shape of a model, read from its metadata.

use super::metadata::{self, MetaKey, MetaValue};
use crate::error::ModelError;
use crate::tensor::{Number, NumberExpr};
use vstd::prelude::*;

verus! {

/// The shape of a model.
pub struct GgufConfig {
    pub head_count: usize,
    pub block_count: usize,
    /// One count per layer.
    pub head_count_kv: Vec<usize>,
    pub embedding_length: usize,
    /// 0 for a model without per-layer inputs.
    pub per_layer_input_dim: usize,
    pub num_experts: Option<usize>,
    pub top_k_experts: Option<usize>,
    /// The head size of global layers.
    pub key_length: usize,
    /// The head size of sliding layers.
    pub key_length_swa: usize,
    pub shared_kv_layers: usize,
    pub rms_eps: Number,
    pub sliding_window: usize,
    pub rope_freq_base: Number,
    pub rope_freq_base_swa: Number,
    pub final_logit_softcapping: Option<Number>,
    /// One flag per layer: sliding, or global.
    pub is_sliding: Vec<bool>,
}

/// Why a count is refused.
pub open spec fn count_check(md: Seq<(String, MetaValue)>, key: MetaKey) -> Option<ModelError> {
    match metadata::count_at(md, key) {
        Some(_) => None,
        None => Some(metadata::refusal(md, key)),
    }
}

/// Why a number is refused.
pub open spec fn number_check(md: Seq<(String, MetaValue)>, key: MetaKey) -> Option<ModelError> {
    match metadata::number_at(md, key) {
        Some(_) => None,
        None => Some(metadata::refusal(md, key)),
    }
}

/// The number of layers.
pub open spec fn layers_in(md: Seq<(String, MetaValue)>) -> usize {
    metadata::count_at(md, MetaKey::BlockCount)->Some_0
}

/// The number of checks that metadata has to pass.
pub const CHECKS: usize = 14;

/// The checks that metadata has to pass, in the order in which they are made: each gives the error
/// that it ends in where it fails.
pub open spec fn check(md: Seq<(String, MetaValue)>, i: int) -> Option<ModelError> {
    if i == 0 {
        count_check(md, MetaKey::HeadCount)
    } else if i == 1 {
        count_check(md, MetaKey::BlockCount)
    } else if i == 2 {
        match metadata::counts_at(md, MetaKey::HeadCountKv, layers_in(md) as nat) {
            Some(_) => None,
            None => Some(metadata::refusal(md, MetaKey::HeadCountKv)),
        }
    } else if i == 3 {
        let entries = metadata::counts_at(
            md,
            MetaKey::HeadCountKv,
            layers_in(md) as nat,
        )->Some_0.len();
        if entries == layers_in(md) {
            None
        } else {
            Some(ModelError::HeadCountKv { entries: entries as usize, layers: layers_in(md) })
        }
    } else if i == 4 {
        count_check(md, MetaKey::EmbeddingLength)
    } else if i == 5 {
        count_check(md, MetaKey::KeyLength)
    } else if i == 6 {
        count_check(md, MetaKey::KeyLengthSwa)
    } else if i == 7 {
        count_check(md, MetaKey::SharedKvLayers)
    } else if i == 8 {
        number_check(md, MetaKey::LayerNormRmsEpsilon)
    } else if i == 9 {
        count_check(md, MetaKey::SlidingWindow)
    } else if i == 10 {
        number_check(md, MetaKey::RopeFreqBase)
    } else if i == 11 {
        number_check(md, MetaKey::RopeFreqBaseSwa)
    } else if i == 12 {
        match metadata::flags_at(md, MetaKey::SlidingWindowPattern) {
            Some(_) => None,
            None => Some(metadata::refusal(md, MetaKey::SlidingWindowPattern)),
        }
    } else {
        let entries = metadata::flags_at(md, MetaKey::SlidingWindowPattern)->Some_0.len();
        if entries == layers_in(md) {
            None
        } else {
            Some(ModelError::SlidingPattern { entries: entries as usize, layers: layers_in(md) })
        }
    }
}

/// Metadata that passes every check.
pub open spec fn is_accepted(md: Seq<(String, MetaValue)>) -> bool {
    forall|i: int| 0 <= i < CHECKS ==> #[trigger] check(md, i) is None
}

/// The error of the first check that metadata fails.
pub open spec fn is_first_refusal(md: Seq<(String, MetaValue)>, e: ModelError) -> bool {
    exists|i: int|
        0 <= i < CHECKS && #[trigger] check(md, i) == Some(e) && forall|j: int|
            0 <= j < i ==> #[trigger] check(md, j) is None
}

/// A number that may be absent.
pub open spec fn number_view(n: Option<Number>) -> Option<NumberExpr> {
    match n {
        Some(n) => Some(n.expr()),
        None => None,
    }
}

impl GgufConfig {
    /// The shape is the one that the metadata gives.
    pub open spec fn follows(&self, md: Seq<(String, MetaValue)>) -> bool {
        &&& Some(self.head_count) == metadata::count_at(md, MetaKey::HeadCount)
        &&& Some(self.block_count) == metadata::count_at(md, MetaKey::BlockCount)
        &&& Some(self.head_count_kv@) == metadata::counts_at(
            md,
            MetaKey::HeadCountKv,
            self.block_count as nat,
        )
        &&& self.head_count_kv@.len() == self.block_count
        &&& Some(self.embedding_length) == metadata::count_at(md, MetaKey::EmbeddingLength)
        &&& self.per_layer_input_dim == (match metadata::count_at(
            md,
            MetaKey::EmbeddingLengthPerLayerInput,
        ) {
            Some(n) => n,
            None => 0,
        })
        &&& self.num_experts == metadata::count_at(md, MetaKey::ExpertCount)
        &&& self.top_k_experts == metadata::count_at(md, MetaKey::ExpertUsedCount)
        &&& Some(self.key_length) == metadata::count_at(md, MetaKey::KeyLength)
        &&& Some(self.key_length_swa) == metadata::count_at(md, MetaKey::KeyLengthSwa)
        &&& Some(self.shared_kv_layers) == metadata::count_at(md, MetaKey::SharedKvLayers)
        &&& Some(self.rms_eps.expr()) == metadata::number_at(md, MetaKey::LayerNormRmsEpsilon)
        &&& Some(self.sliding_window) == metadata::count_at(md, MetaKey::SlidingWindow)
        &&& Some(self.rope_freq_base.expr()) == metadata::number_at(md, MetaKey::RopeFreqBase)
        &&& Some(self.rope_freq_base_swa.expr()) == metadata::number_at(
            md,
            MetaKey::RopeFreqBaseSwa,
        )
        &&& number_view(self.final_logit_softcapping) == metadata::number_at(
            md,
            MetaKey::FinalLogitSoftcapping,
        )
        &&& Some(self.is_sliding@) == metadata::flags_at(md, MetaKey::SlidingWindowPattern)
        &&& self.is_sliding@.len() == self.block_count
    }

    /// Reads the shape of a model from its metadata. The first check that fails decides the error.
    pub fn from_metadata(md: &Vec<(String, MetaValue)>) -> (r: Result<GgufConfig, ModelError>)
        ensures
            match r {
                Ok(cfg) => is_accepted(md@) && cfg.follows(md@),
                Err(e) => is_first_refusal(md@, e),
            },
            is_accepted(md@) ==> r is Ok,
    {
        let head_count: usize = match metadata::get_count(md, MetaKey::HeadCount) {
            Ok(n) => n,
            Err(e) => {
                assert(check(md@, 0) == Some(e));
                return Err(e);
            },
        };
        assert(check(md@, 0) is None);
        let block_count: usize = match metadata::get_count(md, MetaKey::BlockCount) {
            Ok(n) => n,
            Err(e) => {
                assert(check(md@, 1) == Some(e));
                return Err(e);
            },
        };
        assert(check(md@, 1) is None);
        let head_count_kv = match metadata::get_counts(md, MetaKey::HeadCountKv, block_count) {
            Ok(v) => v,
            Err(e) => {
                assert(check(md@, 2) == Some(e));
                return Err(e);
            },
        };
        assert(check(md@, 2) is None);
        if head_count_kv.len() != block_count {
            let e = ModelError::HeadCountKv { entries: head_count_kv.len(), layers: block_count };
            assert(check(md@, 3) == Some(e));
            return Err(e);
        }
        assert(check(md@, 3) is None);
        let embedding_length = match metadata::get_count(md, MetaKey::EmbeddingLength) {
            Ok(n) => n,
            Err(e) => {
                assert(check(md@, 4) == Some(e));
                return Err(e);
            },
        };
        assert(check(md@, 4) is None);
        let per_layer_input_dim: usize = match metadata::get_count_if_any(
            md,
            MetaKey::EmbeddingLengthPerLayerInput,
        ) {
            Some(n) => n,
            None => 0,
        };
        let num_experts = metadata::get_count_if_any(md, MetaKey::ExpertCount);
        let top_k_experts = metadata::get_count_if_any(md, MetaKey::ExpertUsedCount);
        let key_length = match metadata::get_count(md, MetaKey::KeyLength) {
            Ok(n) => n,
            Err(e) => {
                assert(check(md@, 5) == Some(e));
                return Err(e);
            },
        };
        assert(check(md@, 5) is None);
        let key_length_swa = match metadata::get_count(md, MetaKey::KeyLengthSwa) {
            Ok(n) => n,
            Err(e) => {
                assert(check(md@, 6) == Some(e));
                return Err(e);
            },
        };
        assert(check(md@, 6) is None);
        let shared_kv_layers = match metadata::get_count(md, MetaKey::SharedKvLayers) {
            Ok(n) => n,
            Err(e) => {
                assert(check(md@, 7) == Some(e));
                return Err(e);
            },
        };
        assert(check(md@, 7) is None);
        let rms_eps = match metadata::get_number(md, MetaKey::LayerNormRmsEpsilon) {
            Ok(n) => n,
            Err(e) => {
                assert(check(md@, 8) == Some(e));
                return Err(e);
            },
        };
        assert(check(md@, 8) is None);
        let sliding_window = match metadata::get_count(md, MetaKey::SlidingWindow) {
            Ok(n) => n,
            Err(e) => {
                assert(check(md@, 9) == Some(e));
                return Err(e);
            },
        };
        assert(check(md@, 9) is None);
        let rope_freq_base = match metadata::get_number(md, MetaKey::RopeFreqBase) {
            Ok(n) => n,
            Err(e) => {
                assert(check(md@, 10) == Some(e));
                return Err(e);
            },
        };
        assert(check(md@, 10) is None);
        let rope_freq_base_swa = match metadata::get_number(md, MetaKey::RopeFreqBaseSwa) {
            Ok(n) => n,
            Err(e) => {
                assert(check(md@, 11) == Some(e));
                return Err(e);
            },
        };
        assert(check(md@, 11) is None);
        let final_logit_softcapping = metadata::get_number_if_any(
            md,
            MetaKey::FinalLogitSoftcapping,
        );
        let is_sliding = match metadata::get_flags(md, MetaKey::SlidingWindowPattern) {
            Ok(v) => v,
            Err(e) => {
                assert(check(md@, 12) == Some(e));
                return Err(e);
            },
        };
        assert(check(md@, 12) is None);
        if is_sliding.len() != block_count {
            let e = ModelError::SlidingPattern { entries: is_sliding.len(), layers: block_count };
            assert(check(md@, 13) == Some(e));
            return Err(e);
        }
        assert(check(md@, 13) is None);
        Ok(
            GgufConfig {
                head_count,
                block_count,
                head_count_kv,
                embedding_length,
                per_layer_input_dim,
                num_experts,
                top_k_experts,
                key_length,
                key_length_swa,
                shared_kv_layers,
                rms_eps,
                sliding_window,
                rope_freq_base,
                rope_freq_base_swa,
                final_logit_softcapping,
                is_sliding,
            },
        )
    }
}

/// The last of the first `n` layers that is of a kind: sliding or not.
pub open spec fn last_of_kind(is_sliding: Seq<bool>, n: int, sliding: bool) -> Option<int>
    decreases n,
{
    if n <= 0 {
        None
    } else if is_sliding[n - 1] == sliding {
        Some(n - 1)
    } else {
        last_of_kind(is_sliding, n - 1, sliding)
    }
}

impl GgufConfig {
    /// The first layer that shares an earlier layer's keys and values.
    pub open spec fn first_shared(&self) -> int {
        if self.block_count > self.shared_kv_layers {
            self.block_count - self.shared_kv_layers
        } else {
            0
        }
    }

    /// Layer `i` puts its keys and values aside: there are layers that share, and it is the last of
    /// its kind that does not.
    pub open spec fn is_donor(&self, i: int) -> bool {
        self.shared_kv_layers > 0 && last_of_kind(
            self.is_sliding@,
            self.first_shared(),
            self.is_sliding@[i],
        ) == Some(i)
    }

    /// The first layer that shares an earlier layer's keys and values.
    pub fn first_shared_layer(&self) -> (r: usize)
        ensures
            r == self.first_shared(),
            r <= self.block_count,
    {
        if self.block_count > self.shared_kv_layers {
            self.block_count - self.shared_kv_layers
        } else {
            0
        }
    }

    /// The donor of a kind of layer: the last layer of that kind that does not share.
    pub fn donor(&self, sliding: bool) -> (r: Option<usize>)
        requires
            self.is_sliding@.len() == self.block_count,
        ensures
            match r {
                Some(i) => last_of_kind(self.is_sliding@, self.first_shared(), sliding) == Some(
                    i as int,
                ),
                None => last_of_kind(self.is_sliding@, self.first_shared(), sliding) is None,
            },
    {
        let first: usize = self.first_shared_layer();
        let mut n: usize = first;
        while n > 0
            invariant
                n <= first <= self.block_count,
                first == self.first_shared(),
                self.is_sliding@.len() == self.block_count,
                last_of_kind(self.is_sliding@, first as int, sliding) == last_of_kind(
                    self.is_sliding@,
                    n as int,
                    sliding,
                ),
            decreases n,
        {
            if self.is_sliding[n - 1] == sliding {
                return Some(n - 1);
            }
            n = n - 1;
        }
        None
    }
}

/// The last of a kind is of that kind, lies among the first `n`, and none of that kind comes after
/// it; and there is one as soon as any of them is of that kind.
pub proof fn law_donor_is_last_of_its_kind(is_sliding: Seq<bool>, n: int, sliding: bool)
    ensures
        match last_of_kind(is_sliding, n, sliding) {
            Some(d) => {
                &&& 0 <= d < n
                &&& is_sliding[d] == sliding
                &&& forall|i: int| d < i < n ==> #[trigger] is_sliding[i] != sliding
            },
            None => forall|i: int| 0 <= i < n ==> #[trigger] is_sliding[i] != sliding,
        },
    decreases n,
{
    if n > 0 && is_sliding[n - 1] != sliding {
        law_donor_is_last_of_its_kind(is_sliding, n - 1, sliding);
    }
}

} // verus!
