//! The metadata of a GGUF file that the model is built from.

use crate::error::ModelError;
use crate::tensor::{Number, NumberExpr};
use vstd::prelude::*;

verus! {

/// A metadata value. Kinds that the model does not read are `Other`.
pub enum MetaValue {
    U32(u32),
    I32(i32),
    F32(Number),
    Bool(bool),
    Array(Vec<MetaValue>),
    Other,
}

/// The metadata that the model reads.
#[derive(Clone, Copy, PartialEq, Eq, Structural)]
pub enum MetaKey {
    HeadCount,
    BlockCount,
    HeadCountKv,
    EmbeddingLength,
    EmbeddingLengthPerLayerInput,
    ExpertCount,
    ExpertUsedCount,
    KeyLength,
    KeyLengthSwa,
    SharedKvLayers,
    LayerNormRmsEpsilon,
    SlidingWindow,
    RopeFreqBase,
    RopeFreqBaseSwa,
    FinalLogitSoftcapping,
    SlidingWindowPattern,
}

impl MetaKey {
    /// The key as the file writes it.
    pub open spec fn name(self) -> Seq<char> {
        match self {
            MetaKey::HeadCount => "gemma4.attention.head_count"@,
            MetaKey::BlockCount => "gemma4.block_count"@,
            MetaKey::HeadCountKv => "gemma4.attention.head_count_kv"@,
            MetaKey::EmbeddingLength => "gemma4.embedding_length"@,
            MetaKey::EmbeddingLengthPerLayerInput => "gemma4.embedding_length_per_layer_input"@,
            MetaKey::ExpertCount => "gemma4.expert_count"@,
            MetaKey::ExpertUsedCount => "gemma4.expert_used_count"@,
            MetaKey::KeyLength => "gemma4.attention.key_length"@,
            MetaKey::KeyLengthSwa => "gemma4.attention.key_length_swa"@,
            MetaKey::SharedKvLayers => "gemma4.attention.shared_kv_layers"@,
            MetaKey::LayerNormRmsEpsilon => "gemma4.attention.layer_norm_rms_epsilon"@,
            MetaKey::SlidingWindow => "gemma4.attention.sliding_window"@,
            MetaKey::RopeFreqBase => "gemma4.rope.freq_base"@,
            MetaKey::RopeFreqBaseSwa => "gemma4.rope.freq_base_swa"@,
            MetaKey::FinalLogitSoftcapping => "gemma4.final_logit_softcapping"@,
            MetaKey::SlidingWindowPattern => "gemma4.attention.sliding_window_pattern"@,
        }
    }

    /// The key as the file writes it.
    pub fn as_str(self) -> (r: &'static str)
        ensures
            r@ == self.name(),
    {
        match self {
            MetaKey::HeadCount => "gemma4.attention.head_count",
            MetaKey::BlockCount => "gemma4.block_count",
            MetaKey::HeadCountKv => "gemma4.attention.head_count_kv",
            MetaKey::EmbeddingLength => "gemma4.embedding_length",
            MetaKey::EmbeddingLengthPerLayerInput => "gemma4.embedding_length_per_layer_input",
            MetaKey::ExpertCount => "gemma4.expert_count",
            MetaKey::ExpertUsedCount => "gemma4.expert_used_count",
            MetaKey::KeyLength => "gemma4.attention.key_length",
            MetaKey::KeyLengthSwa => "gemma4.attention.key_length_swa",
            MetaKey::SharedKvLayers => "gemma4.attention.shared_kv_layers",
            MetaKey::LayerNormRmsEpsilon => "gemma4.attention.layer_norm_rms_epsilon",
            MetaKey::SlidingWindow => "gemma4.attention.sliding_window",
            MetaKey::RopeFreqBase => "gemma4.rope.freq_base",
            MetaKey::RopeFreqBaseSwa => "gemma4.rope.freq_base_swa",
            MetaKey::FinalLogitSoftcapping => "gemma4.final_logit_softcapping",
            MetaKey::SlidingWindowPattern => "gemma4.attention.sliding_window_pattern",
        }
    }
}

/// The first value under a name.
pub open spec fn lookup(md: Seq<(String, MetaValue)>, name: Seq<char>) -> Option<MetaValue>
    decreases md.len(),
{
    if md.len() == 0 {
        None
    } else if md[0].0@ == name {
        Some(md[0].1)
    } else {
        lookup(md.drop_first(), name)
    }
}

/// The first value under a name.
fn find<'a>(md: &'a Vec<(String, MetaValue)>, name: &str) -> (r: Option<&'a MetaValue>)
    ensures
        match r {
            Some(v) => lookup(md@, name@) == Some(*v),
            None => lookup(md@, name@) is None,
        },
{
    let wanted = String::from_str(name);
    let mut i: usize = 0;
    assert(md@.skip(0) =~= md@);
    while i < md.len()
        invariant
            i <= md@.len(),
            wanted@ == name@,
            lookup(md@, name@) == lookup(md@.skip(i as int), name@),
        decreases md@.len() - i,
    {
        assert(md@.skip(i as int)[0] == md@[i as int]);
        assert(md@.skip(i as int).drop_first() =~= md@.skip(i + 1));
        if md[i].0 == wanted {
            return Some(&md[i].1);
        }
        i = i + 1;
    }
    None
}

/// Why a key does not give what is wanted of it.
pub open spec fn refusal(md: Seq<(String, MetaValue)>, key: MetaKey) -> ModelError {
    match lookup(md, key.name()) {
        None => ModelError::MissingMetadata(key),
        Some(_) => ModelError::MetadataType(key),
    }
}

/// A count under a key.
pub open spec fn count_at(md: Seq<(String, MetaValue)>, key: MetaKey) -> Option<usize> {
    match lookup(md, key.name()) {
        Some(MetaValue::U32(n)) => Some(n as usize),
        _ => None,
    }
}

/// A number under a key.
pub open spec fn number_at(md: Seq<(String, MetaValue)>, key: MetaKey) -> Option<NumberExpr> {
    match lookup(md, key.name()) {
        Some(MetaValue::F32(n)) => Some(n.expr()),
        _ => None,
    }
}

/// A count of either sign; a negative one wraps round.
pub open spec fn either_count(v: MetaValue) -> Option<usize> {
    match v {
        MetaValue::U32(n) => Some(n as usize),
        MetaValue::I32(n) => Some(n as usize),
        _ => None,
    }
}

/// One count per layer: an array of them, or one count for all layers.
pub open spec fn counts_at(
    md: Seq<(String, MetaValue)>,
    key: MetaKey,
    layers: nat,
) -> Option<Seq<usize>> {
    match lookup(md, key.name()) {
        Some(MetaValue::Array(vs)) => if forall|i: int|
            0 <= i < vs@.len() ==> either_count(#[trigger] vs@[i]) is Some {
            Some(Seq::new(vs@.len(), |i: int| either_count(vs@[i])->Some_0))
        } else {
            None
        },
        Some(v) => match either_count(v) {
            Some(n) => Some(Seq::new(layers, |i: int| n)),
            None => None,
        },
        None => None,
    }
}

/// An array of flags under a key.
pub open spec fn flags_at(md: Seq<(String, MetaValue)>, key: MetaKey) -> Option<Seq<bool>> {
    match lookup(md, key.name()) {
        Some(MetaValue::Array(vs)) => if forall|i: int|
            0 <= i < vs@.len() ==> #[trigger] vs@[i] is Bool {
            Some(Seq::new(vs@.len(), |i: int| vs@[i]->Bool_0))
        } else {
            None
        },
        _ => None,
    }
}

/// Why a key does not give what is wanted of it.
fn refuse(md: &Vec<(String, MetaValue)>, key: MetaKey) -> (r: ModelError)
    ensures
        r == refusal(md@, key),
{
    match find(md, key.as_str()) {
        None => ModelError::MissingMetadata(key),
        Some(_) => ModelError::MetadataType(key),
    }
}

/// A count under a key.
pub(crate) fn get_count(md: &Vec<(String, MetaValue)>, key: MetaKey) -> (r: Result<usize, ModelError>)
    ensures
        match count_at(md@, key) {
            Some(n) => r == Ok::<usize, ModelError>(n),
            None => r == Err::<usize, ModelError>(refusal(md@, key)),
        },
{
    match find(md, key.as_str()) {
        Some(MetaValue::U32(n)) => Ok(*n as usize),
        _ => Err(refuse(md, key)),
    }
}

/// A count under a key, where there is one.
pub(crate) fn get_count_if_any(md: &Vec<(String, MetaValue)>, key: MetaKey) -> (r: Option<usize>)
    ensures
        r == count_at(md@, key),
{
    match find(md, key.as_str()) {
        Some(MetaValue::U32(n)) => Some(*n as usize),
        _ => None,
    }
}

/// A number under a key, where there is one.
pub(crate) fn get_number_if_any(md: &Vec<(String, MetaValue)>, key: MetaKey) -> (r: Option<Number>)
    ensures
        match number_at(md@, key) {
            Some(n) => r matches Some(number) && number.expr() == n,
            None => r is None,
        },
{
    match find(md, key.as_str()) {
        Some(MetaValue::F32(n)) => Some(n.duplicate()),
        _ => None,
    }
}

/// A number under a key.
pub(crate) fn get_number(md: &Vec<(String, MetaValue)>, key: MetaKey) -> (r: Result<Number, ModelError>)
    ensures
        match number_at(md@, key) {
            Some(n) => r matches Ok(number) && number.expr() == n,
            None => r == Err::<Number, ModelError>(refusal(md@, key)),
        },
{
    match get_number_if_any(md, key) {
        Some(number) => Ok(number),
        None => Err(refuse(md, key)),
    }
}

/// A count of either sign.
fn get_either(v: &MetaValue) -> (r: Option<usize>)
    ensures
        r == either_count(*v),
{
    match v {
        MetaValue::U32(n) => Some(*n as usize),
        MetaValue::I32(n) => Some(*n as usize),
        _ => None,
    }
}

/// One count per layer.
pub(crate) fn get_counts(md: &Vec<(String, MetaValue)>, key: MetaKey, layers: usize) -> (r: Result<
    Vec<usize>,
    ModelError,
>)
    ensures
        match counts_at(md@, key, layers as nat) {
            Some(ns) => r matches Ok(v) && v@ == ns,
            None => r == Err::<Vec<usize>, ModelError>(refusal(md@, key)),
        },
{
    let mut out: Vec<usize> = Vec::new();
    match find(md, key.as_str()) {
        Some(MetaValue::Array(vs)) => {
            let mut i: usize = 0;
            while i < vs.len()
                invariant
                    i <= vs@.len(),
                    lookup(md@, key.name()) == Some(MetaValue::Array(*vs)),
                    out@.len() == i,
                    forall|j: int|
                        0 <= j < i ==> either_count(#[trigger] vs@[j]) == Some(out@[j]),
                decreases vs@.len() - i,
            {
                match get_either(&vs[i]) {
                    Some(n) => {
                        out.push(n);
                    },
                    None => {
                        assert(either_count(vs@[i as int]) is None);
                        return Err(refuse(md, key));
                    },
                }
                i = i + 1;
            }
            assert(out@ =~= Seq::new(vs@.len(), |i: int| either_count(vs@[i])->Some_0));
            Ok(out)
        },
        Some(v) => match get_either(v) {
            Some(n) => {
                let mut i: usize = 0;
                while i < layers
                    invariant
                        i <= layers,
                        out@ == Seq::new(i as nat, |j: int| n),
                    decreases layers - i,
                {
                    out.push(n);
                    i = i + 1;
                    assert(out@ =~= Seq::new(i as nat, |j: int| n));
                }
                Ok(out)
            },
            None => Err(refuse(md, key)),
        },
        None => Err(refuse(md, key)),
    }
}

/// An array of flags under a key.
pub(crate) fn get_flags(md: &Vec<(String, MetaValue)>, key: MetaKey) -> (r: Result<Vec<bool>, ModelError>)
    ensures
        match flags_at(md@, key) {
            Some(bs) => r matches Ok(v) && v@ == bs,
            None => r == Err::<Vec<bool>, ModelError>(refusal(md@, key)),
        },
{
    let mut out: Vec<bool> = Vec::new();
    match find(md, key.as_str()) {
        Some(MetaValue::Array(vs)) => {
            let mut i: usize = 0;
            while i < vs.len()
                invariant
                    i <= vs@.len(),
                    lookup(md@, key.name()) == Some(MetaValue::Array(*vs)),
                    out@.len() == i,
                    forall|j: int|
                        0 <= j < i ==> #[trigger] vs@[j] == MetaValue::Bool(out@[j]),
                decreases vs@.len() - i,
            {
                match &vs[i] {
                    MetaValue::Bool(b) => {
                        out.push(*b);
                    },
                    _ => {
                        assert(!(vs@[i as int] is Bool));
                        return Err(refuse(md, key));
                    },
                }
                i = i + 1;
            }
            assert(out@ =~= Seq::new(vs@.len(), |i: int| vs@[i]->Bool_0));
            Ok(out)
        },
        _ => Err(refuse(md, key)),
    }
}

} // verus!
