//! The errors of the library.

use crate::names;
use crate::quantized_gemma4::metadata::MetaKey;
use vstd::prelude::*;

verus! {

/// Marks `candle_core::Error` as a type whose inside the library does not look at.
#[verifier::external_type_specification]
#[verifier::external_body]
pub struct ExError(candle_core::Error);

/// Everything that can go wrong while loading or running a model.
pub enum ModelError {
    /// A tensor operation failed.
    Candle(candle_core::Error),
    /// An axis that is normalised over, rotated or cut in halves holds no entries.
    EmptyAxis,
    /// A shape has more entries than `usize` can count.
    ShapeTooLarge,
    /// A tensor does not have the number of dimensions that is needed here.
    Rank { expected: usize, got: usize },
    /// A tensor that is computed with holds no floating-point numbers.
    NotFloat,
    /// A tensor's entries are not the single-precision numbers that are needed here.
    ElementType,
    /// A packed tensor's bytes do not cover its shape.
    MalformedTensor,
    /// A layer has no heads for keys and values.
    NoKvHeads,
    /// As many experts cannot be picked from so many.
    TopK { top_k: usize, experts: usize },
    /// An expert was picked that the model does not hold.
    ExpertMissing { expert: usize, experts: usize },
    /// A layer that shares keys and values was reached before the layer that provides them.
    DonorMissing,
    /// A layer and its model disagree on per-layer inputs.
    PerLayerMismatch { layer: usize },
    /// A forward pass was asked for no positions at all.
    EmptyInput,
    /// A lane was used with a model of another number of layers.
    CacheLayers { cache: usize, model: usize },
    /// A forward pass was asked for at another position than the lane is at.
    PositionDrift { index_pos: usize, pos: usize },
    /// A key is not in the metadata.
    MissingMetadata(MetaKey),
    /// The value under a key is of another kind than is wanted.
    MetadataType(MetaKey),
    /// There are not as many counts of key heads as layers.
    HeadCountKv { entries: usize, layers: usize },
    /// There are not as many entries in the attention pattern as layers.
    SlidingPattern { entries: usize, layers: usize },
    /// A tensor of this name is not in the file.
    MissingTensor(String),
    /// There are not as many scales of experts as experts.
    ExpertScales { entries: usize, experts: usize },
    /// The model asks for fused attention, which is not built in.
    NoFlashAttention,
    /// The model's shape lacks a count that another of its settings needs.
    MissingSetting(Setting),
    /// There are not as many layer types as layers.
    LayerTypes { entries: usize, layers: usize },
    /// More pairs are to rotate than a head holds.
    RotaryAngles { angles: usize, head_dim: usize },
}

/// The counts that other settings of a float model need.
pub enum Setting {
    /// The key heads of full layers whose values share the keys' projection.
    NumGlobalKeyValueHeads,
    /// The number of experts.
    NumExperts,
    /// The number of experts that are picked for a token.
    TopKExperts,
    /// The inner size of an expert's block.
    MoeIntermediateSize,
}

impl Setting {
    /// What is said where the count is missing.
    pub open spec fn complaint(self) -> Seq<char> {
        match self {
            Setting::NumGlobalKeyValueHeads => "missing `num_global_key_value_heads` (required by `attention_k_eq_v` for full layers)"@,
            Setting::NumExperts => "enable_moe_block requires num_experts"@,
            Setting::TopKExperts => "enable_moe_block requires top_k_experts"@,
            Setting::MoeIntermediateSize => "enable_moe_block requires moe_intermediate_size"@,
        }
    }

    /// What is said where the count is missing.
    pub fn as_str(&self) -> (r: &'static str)
        ensures
            r@ == self.complaint(),
    {
        match self {
            Setting::NumGlobalKeyValueHeads => "missing `num_global_key_value_heads` (required by `attention_k_eq_v` for full layers)",
            Setting::NumExperts => "enable_moe_block requires num_experts",
            Setting::TopKExperts => "enable_moe_block requires top_k_experts",
            Setting::MoeIntermediateSize => "enable_moe_block requires moe_intermediate_size",
        }
    }
}

/// A text around two numbers.
pub open spec fn with_two(a: Seq<char>, n: usize, b: Seq<char>, m: usize, c: Seq<char>) -> Seq<
    char,
> {
    a + names::decimal(n as nat) + b + names::decimal(m as nat) + c
}

/// A text around two numbers.
fn make_two(a: &str, n: usize, b: &str, m: usize, c: &str) -> (r: String)
    ensures
        r@ == with_two(a@, n, b@, m, c@),
{
    let mut s = String::from_str(a);
    s.append(names::decimal_string(n).as_str());
    s.append(b);
    s.append(names::decimal_string(m).as_str());
    s.append(c);
    s
}

impl ModelError {
    /// What the error says; of a failed tensor operation `candle` says it.
    pub open spec fn message(self) -> Option<Seq<char>> {
        match self {
            ModelError::Candle(_) => None,
            ModelError::EmptyAxis => Some("an axis that is normalised over holds no entries"@),
            ModelError::ShapeTooLarge => Some("a shape has more entries than can be counted"@),
            ModelError::NotFloat => Some("a tensor that is computed with holds no floats"@),
            ModelError::ElementType => Some("a tensor holds no single-precision numbers"@),
            ModelError::MalformedTensor => Some("a packed tensor's bytes do not cover its shape"@),
            ModelError::NoKvHeads => Some("a layer has no heads for keys and values"@),
            ModelError::DonorMissing => Some("shared-KV layer reached before its donor layer"@),
            ModelError::EmptyInput => Some("a forward pass needs at least one position"@),
            ModelError::NoFlashAttention => Some("compile with '--features flash-attn'"@),
            ModelError::Rank { expected, got } => Some(
                with_two("expected "@, expected, " dimensions, got "@, got, ""@),
            ),
            ModelError::TopK { top_k, experts } => Some(
                with_two("cannot pick "@, top_k, " of "@, experts, " experts"@),
            ),
            ModelError::ExpertMissing { expert, experts } => Some(
                with_two("expert "@, expert, " was picked of "@, experts, ""@),
            ),
            ModelError::CacheLayers { cache, model } => Some(
                with_two("cache has "@, cache, " layers but the model has "@, model, ""@),
            ),
            ModelError::PositionDrift { index_pos, pos } => Some(
                with_two(
                    "cache position drift: forward at index_pos "@,
                    index_pos,
                    " but the cache is at "@,
                    pos,
                    ""@,
                ),
            ),
            ModelError::HeadCountKv { entries, layers } => Some(
                with_two("head_count_kv has "@, entries, " entries for "@, layers, " layers"@),
            ),
            ModelError::SlidingPattern { entries, layers } => Some(
                with_two(
                    "sliding_window_pattern has "@,
                    entries,
                    " entries for "@,
                    layers,
                    " layers"@,
                ),
            ),
            ModelError::ExpertScales { entries, experts } => Some(
                with_two("per-expert scale has "@, entries, " entries for "@, experts, " experts"@),
            ),
            ModelError::LayerTypes { entries, layers } => Some(
                with_two("layer_types has "@, entries, " entries for "@, layers, " layers"@),
            ),
            ModelError::RotaryAngles { angles, head_dim } => Some(
                with_two("cannot rotate "@, angles, " pairs of a head of "@, head_dim, ""@),
            ),
            ModelError::PerLayerMismatch { layer } => Some(
                "PLE state mismatch between model and layer "@ + names::decimal(layer as nat),
            ),
            ModelError::MissingMetadata(key) => Some(
                "cannot find "@ + key.name() + " in metadata"@,
            ),
            ModelError::MetadataType(key) => Some(
                key.name() + " in metadata is of another kind than is wanted"@,
            ),
            ModelError::MissingTensor(name) => Some("cannot find tensor info for "@ + name@),
            ModelError::MissingSetting(setting) => Some(setting.complaint()),
        }
    }

    /// What the error says; of a failed tensor operation `candle` says it.
    pub fn text(&self) -> (r: Option<String>)
        ensures
            match self.message() {
                Some(m) => r matches Some(s) && s@ == m,
                None => r is None,
            },
    {
        match self {
            ModelError::Candle(_) => None,
            ModelError::EmptyAxis => Some(
                String::from_str("an axis that is normalised over holds no entries"),
            ),
            ModelError::ShapeTooLarge => Some(
                String::from_str("a shape has more entries than can be counted"),
            ),
            ModelError::NotFloat => Some(
                String::from_str("a tensor that is computed with holds no floats"),
            ),
            ModelError::ElementType => Some(
                String::from_str("a tensor holds no single-precision numbers"),
            ),
            ModelError::MalformedTensor => Some(
                String::from_str("a packed tensor's bytes do not cover its shape"),
            ),
            ModelError::NoKvHeads => Some(
                String::from_str("a layer has no heads for keys and values"),
            ),
            ModelError::DonorMissing => Some(
                String::from_str("shared-KV layer reached before its donor layer"),
            ),
            ModelError::EmptyInput => Some(
                String::from_str("a forward pass needs at least one position"),
            ),
            ModelError::NoFlashAttention => Some(
                String::from_str("compile with '--features flash-attn'"),
            ),
            ModelError::Rank { expected, got } => Some(
                make_two("expected ", *expected, " dimensions, got ", *got, ""),
            ),
            ModelError::TopK { top_k, experts } => Some(
                make_two("cannot pick ", *top_k, " of ", *experts, " experts"),
            ),
            ModelError::ExpertMissing { expert, experts } => Some(
                make_two("expert ", *expert, " was picked of ", *experts, ""),
            ),
            ModelError::CacheLayers { cache, model } => Some(
                make_two("cache has ", *cache, " layers but the model has ", *model, ""),
            ),
            ModelError::PositionDrift { index_pos, pos } => Some(
                make_two(
                    "cache position drift: forward at index_pos ",
                    *index_pos,
                    " but the cache is at ",
                    *pos,
                    "",
                ),
            ),
            ModelError::HeadCountKv { entries, layers } => Some(
                make_two("head_count_kv has ", *entries, " entries for ", *layers, " layers"),
            ),
            ModelError::SlidingPattern { entries, layers } => Some(
                make_two(
                    "sliding_window_pattern has ",
                    *entries,
                    " entries for ",
                    *layers,
                    " layers",
                ),
            ),
            ModelError::ExpertScales { entries, experts } => Some(
                make_two("per-expert scale has ", *entries, " entries for ", *experts, " experts"),
            ),
            ModelError::LayerTypes { entries, layers } => Some(
                make_two("layer_types has ", *entries, " entries for ", *layers, " layers"),
            ),
            ModelError::RotaryAngles { angles, head_dim } => Some(
                make_two("cannot rotate ", *angles, " pairs of a head of ", *head_dim, ""),
            ),
            ModelError::PerLayerMismatch { layer } => {
                let mut s = String::from_str("PLE state mismatch between model and layer ");
                s.append(names::decimal_string(*layer).as_str());
                Some(s)
            },
            ModelError::MissingMetadata(key) => {
                let mut s = String::from_str("cannot find ");
                s.append(key.as_str());
                s.append(" in metadata");
                Some(s)
            },
            ModelError::MetadataType(key) => {
                let mut s = String::from_str(key.as_str());
                s.append(" in metadata is of another kind than is wanted");
                Some(s)
            },
            ModelError::MissingTensor(name) => {
                let mut s = String::from_str("cannot find tensor info for ");
                s.append(name.as_str());
                Some(s)
            },
            ModelError::MissingSetting(setting) => Some(String::from_str(setting.as_str())),
        }
    }
}

/// A message around two numbers says all of its parts, in order, and nothing else.
pub proof fn law_messages_hold_their_numbers(
    a: Seq<char>,
    n: usize,
    b: Seq<char>,
    m: usize,
    c: Seq<char>,
)
    ensures
        ({
            let (x, y) = (names::decimal(n as nat), names::decimal(m as nat));
            let text = with_two(a, n, b, m, c);
            let (i, j, k) = (a.len() + x.len(), a.len() + x.len() + b.len(), a.len() + x.len()
                + b.len() + y.len());
            &&& text.len() == k + c.len()
            &&& text.subrange(0, a.len() as int) == a
            &&& text.subrange(a.len() as int, i as int) == x
            &&& text.subrange(i as int, j as int) == b
            &&& text.subrange(j as int, k as int) == y
            &&& text.subrange(k as int, text.len() as int) == c
        }),
{
    let (x, y) = (names::decimal(n as nat), names::decimal(m as nat));
    let text = with_two(a, n, b, m, c);
    let (i, j, k) = (a.len() + x.len(), a.len() + x.len() + b.len(), a.len() + x.len() + b.len()
        + y.len());
    assert(text.subrange(0, a.len() as int) =~= a);
    assert(text.subrange(a.len() as int, i as int) =~= x);
    assert(text.subrange(i as int, j as int) =~= b);
    assert(text.subrange(j as int, k as int) =~= y);
    assert(text.subrange(k as int, text.len() as int) =~= c);
}

/// Every error of the library's own says something; what a failed tensor operation says, `candle`
/// knows.
pub proof fn law_errors_speak(e: ModelError)
    ensures
        e.message() is None <==> e is Candle,
{
}

} // verus!
