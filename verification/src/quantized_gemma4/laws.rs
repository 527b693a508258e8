//! What holds of every pass over a lane.

use super::config::{self, GgufConfig};
use super::layer::{KvSource, LayerWeights};
use super::loader;
use super::{Gemma4KvCache, Pass, PassState, Weights};
use crate::attention::{self, KvView, SharedView};
use crate::error::ModelError;
use crate::generation::{self, GenerationView};
use crate::mask;
use crate::meaning::{self, entry, shape_of, Values};
use crate::tensor;
use crate::tensor::{Expr, Traced, UnaryOp};
use std::sync::Arc;
use vstd::prelude::*;

verus! {

impl Weights {
    /// Sliding layers keep the model's window, global layers everything, and no layer's output
    /// scale stretches the batch or the positions.
    pub open spec fn is_regular(&self) -> bool {
        forall|i: int|
            #![trigger self.layers@[i]]
            0 <= i < self.layers@.len() ==> {
                &&& self.layers@[i].window == self.window_of(self.layers@[i].is_global)
                &&& self.layers@[i].layer_scalar.dims().len() <= 1
            }
    }
}

/// The shape of a layer's keys and of its values: a batch of its heads, each with an entry for every
/// retained position.
pub open spec fn is_entry_shape(
    layer: LayerWeights,
    dims: Seq<usize>,
    batch: usize,
    positions: int,
) -> bool {
    &&& dims.len() == 4
    &&& dims[0] == batch
    &&& dims[1] == layer.n_kv_head
    &&& dims[2] == positions
    &&& dims[3] == layer.head_dim
}

/// The entry of a layer whose lane has consumed `pos` positions of a batch: nothing at the start and
/// on layers that share, else keys and values of the retained positions.
pub open spec fn entry_at(layer: LayerWeights, slot: Option<KvView>, batch: usize, pos: int) -> bool {
    if pos == 0 || layer.kv is Shared {
        slot is None
    } else {
        slot matches Some(kv) && {
            &&& is_entry_shape(layer, kv.k_dims, batch, mask::retained(pos, layer.window))
            &&& is_entry_shape(layer, kv.v_dims, batch, mask::retained(pos, layer.window))
        }
    }
}

/// A lane that has consumed `pos` positions of a batch.
pub open spec fn lane_at(w: Weights, lane: Seq<Option<KvView>>, batch: usize, pos: int) -> bool {
    &&& lane.len() == w.layers@.len()
    &&& forall|i: int|
        0 <= i < lane.len() ==> entry_at(w.layers@[i], #[trigger] lane[i], batch, pos)
}

/// The number of key positions that layer `n` attends.
pub open spec fn attended(
    w: Weights,
    n: nat,
    ids: Traced,
    index_pos: usize,
    lane: Seq<Option<KvView>>,
    picks: Seq<Seq<Seq<usize>>>,
) -> int {
    let pass = w.pass(ids, index_pos);
    let before = w.run(n, pass, w.start(ids, index_pos, lane), picks);
    let layer = w.layers@[n as int];
    match layer.kv {
        KvSource::Compute { .. } => attention::kv_appended(
            before.slots[n as int],
            layer.new_kv(layer.input_layernorm.of(before.xs), before.dims, pass.index_pos),
        ).k_dims[2] as int,
        KvSource::Shared => before.shared.get(layer.is_global)->Some_0.k_dims[2] as int,
    }
}

/// The state of a pass after `n` layers: the positions of the hidden state are those of the input,
/// the layers that were run have their entries at the new position, the others at the old one, and
/// what was put aside covers the retained and the new positions.
spec fn passed(
    w: Weights,
    st: PassState,
    n: nat,
    batch: usize,
    seq_len: int,
    index_pos: int,
) -> bool {
    &&& st.dims.len() == 3
    &&& st.dims[0] == batch
    &&& st.dims[1] == seq_len
    &&& st.slots.len() == w.layers@.len()
    &&& forall|i: int|
        0 <= i < n ==> entry_at(w.layers@[i], #[trigger] st.slots[i], batch, index_pos + seq_len)
    &&& forall|i: int|
        n <= i < w.layers@.len() ==> entry_at(w.layers@[i], #[trigger] st.slots[i], batch, index_pos)
    &&& forall|g: bool|
        (#[trigger] st.shared.get(g)) matches Some(kv) ==> kv.k_dims[2] == mask::retained(
            index_pos,
            w.window_of(g),
        ) + seq_len
}

/// Appending the new positions to an entry and keeping the retained ones moves the entry on.
proof fn lemma_entry_moves_on(
    layer: LayerWeights,
    slot: Option<KvView>,
    new: KvView,
    batch: usize,
    pos: int,
)
    requires
        entry_at(layer, slot, batch, pos),
        layer.kv is Compute,
        0 <= pos,
        is_entry_shape(layer, new.k_dims, batch, new.k_dims[2] as int),
        is_entry_shape(layer, new.v_dims, batch, new.k_dims[2] as int),
        new.k_dims[2] > 0,
        pos + new.k_dims[2] <= usize::MAX,
    ensures
        ({
            let kv = attention::kv_appended(slot, new);
            &&& kv.k_dims[2] == mask::retained(pos, layer.window) + new.k_dims[2]
            &&& entry_at(
                layer,
                Some(attention::kv_retained(kv, layer.window)),
                batch,
                pos + new.k_dims[2],
            )
        }),
{
}

proof fn lemma_passed(
    w: Weights,
    n: nat,
    ids: Traced,
    index_pos: usize,
    lane: Seq<Option<KvView>>,
    picks: Seq<Seq<Seq<usize>>>,
)
    requires
        w.is_regular(),
        !w.refuses_input(ids, index_pos),
        index_pos != 0 ==> lane_at(w, lane, ids.dims()[0], index_pos as int) && w.layers@.len() > 0,
        n <= w.layers@.len(),
    ensures
        passed(
            w,
            w.run(n, w.pass(ids, index_pos), w.start(ids, index_pos, lane), picks),
            n,
            ids.dims()[0],
            ids.dims()[1] as int,
            index_pos as int,
        ),
    decreases n,
{
    let pass = w.pass(ids, index_pos);
    let start = w.start(ids, index_pos, lane);
    let seq_len = ids.dims()[1] as int;
    if n == 0 {
        assert forall|i: int| 0 <= i < w.layers@.len() implies entry_at(
            w.layers@[i],
            #[trigger] start.slots[i],
            ids.dims()[0],
            index_pos as int,
        ) by {
            if index_pos != 0 {
                assert(start.slots[i] == lane[i]);
            }
        }
    } else {
        let i = (n - 1) as nat;
        lemma_passed(w, i, ids, index_pos, lane, picks);
        let before = w.run(i, pass, start, picks);
        let after = w.run(n, pass, start, picks);
        let layer = w.layers@[i as int];
        assert(entry_at(layer, before.slots[i as int], ids.dims()[0], index_pos as int));
        let x = layer.input_layernorm.of(before.xs);
        let new = layer.new_kv(x, before.dims, pass.index_pos);
        assert(after.dims =~= tensor::broadcast_dims(before.dims, layer.layer_scalar.dims()));
        if layer.kv is Compute {
            lemma_entry_moves_on(
                layer,
                before.slots[i as int],
                new,
                ids.dims()[0],
                index_pos as int,
            );
        }
        assert(after.slots =~= before.slots.update(i as int, after.slots[i as int]));
        assert(after.dims.len() == 3);
        assert(after.dims[1] == before.dims[1]) by {
            assert(1 + 3 - 3 == 1);
        }
        assert(after.dims[0] == before.dims[0]) by {
            assert(0 + 3 - 3 == 0);
        }
        assert forall|g: bool| (#[trigger] after.shared.get(g)) is Some implies after.shared.get(
            g,
        )->Some_0.k_dims[2] == mask::retained(index_pos as int, w.window_of(g)) + seq_len by {
            assert(before.shared.get(g) is Some ==> before.shared.get(g)->Some_0.k_dims[2]
                == mask::retained(index_pos as int, w.window_of(g)) + seq_len);
        }
    }
}

/// A pass leaves a lane that has consumed `index_pos` positions as one that has consumed the new
/// ones too: every layer that computes keys and values holds them for the batch and its heads, at
/// exactly the retained positions, the last `w` of them under a window `w`, and the layers that share
/// hold nothing.
pub proof fn law_pass_moves_lane_on(
    w: Weights,
    ids: Traced,
    index_pos: usize,
    lane: Seq<Option<KvView>>,
    picks: Seq<Seq<Seq<usize>>>,
)
    requires
        w.is_regular(),
        !w.refuses_input(ids, index_pos),
        w.layers@.len() > 0,
        index_pos != 0 ==> lane_at(w, lane, ids.dims()[0], index_pos as int),
    ensures
        lane_at(
            w,
            w.run(
                w.layers@.len(),
                w.pass(ids, index_pos),
                w.start(ids, index_pos, lane),
                picks,
            ).slots,
            ids.dims()[0],
            index_pos + ids.dims()[1],
        ),
{
    lemma_passed(w, w.layers@.len(), ids, index_pos, lane, picks);
}

/// A pass that succeeds leaves a lane at its position: every layer that computes keys and values
/// holds them for exactly the retained positions of those that the lane says it has consumed.
pub proof fn law_lanes_hold_their_position(
    w: Weights,
    ids: Traced,
    index_pos: usize,
    before: Gemma4KvCache,
    after: Gemma4KvCache,
    r: Result<Traced, ModelError>,
)
    requires
        w.is_regular(),
        w.layers@.len() > 0,
        index_pos != 0 ==> lane_at(w, before@, ids.dims()[0], index_pos as int),
        super::forward_outcome(w, ids, index_pos, before, after, r),
        r is Ok,
    ensures
        after.position() == index_pos + ids.dims()[1],
        lane_at(w, after@, ids.dims()[0], after.position() as int),
{
    let pass = w.pass(ids, index_pos);
    let start = w.start(ids, index_pos, before@);
    let picks = choose|picks: Seq<Seq<Seq<usize>>>| #[trigger]
        w.are_picks(pass, start, picks) && after@ == w.run(
            w.layers@.len(),
            pass,
            start,
            picks,
        ).slots;
    law_pass_moves_lane_on(w, ids, index_pos, before@, picks);
}

/// The number of positions of the first `n` chunks of a stream.
pub open spec fn consumed(chunks: Seq<Traced>, n: nat) -> int
    decreases n,
{
    if n == 0 {
        0
    } else {
        consumed(chunks, (n - 1) as nat) + chunks[n - 1].dims()[1]
    }
}

/// A lane took the chunks of a stream one after the other, each at the position behind the one
/// before it: `lanes[n]` is the lane after `n` of them.
pub open spec fn took(
    w: Weights,
    chunks: Seq<Traced>,
    lanes: Seq<Gemma4KvCache>,
    batch: usize,
) -> bool {
    &&& lanes.len() == chunks.len() + 1
    &&& forall|n: int|
        0 <= n < chunks.len() ==> {
            &&& (#[trigger] chunks[n]).dims()[0] == batch
            &&& consumed(chunks, n as nat) <= usize::MAX
            &&& exists|r: Result<Traced, ModelError>|
                r is Ok && #[trigger] super::forward_outcome(
                    w,
                    chunks[n],
                    consumed(chunks, n as nat) as usize,
                    lanes[n],
                    lanes[n + 1],
                    r,
                )
        }
}

/// A lane that took some chunks is at the end of them.
proof fn lemma_took(
    w: Weights,
    chunks: Seq<Traced>,
    lanes: Seq<Gemma4KvCache>,
    batch: usize,
    n: nat,
)
    requires
        w.is_regular(),
        w.layers@.len() > 0,
        took(w, chunks, lanes, batch),
        0 < n <= chunks.len(),
    ensures
        lanes[n as int].position() == consumed(chunks, n),
        lane_at(w, lanes[n as int]@, batch, consumed(chunks, n)),
    decreases n,
{
    let m = (n - 1) as nat;
    if m > 0 {
        lemma_took(w, chunks, lanes, batch, m);
    }
    assert(chunks[m as int].dims()[0] == batch);
    let pos = consumed(chunks, m) as usize;
    assert(m == 0 ==> consumed(chunks, m) == 0);
    let r = choose|r: Result<Traced, ModelError>|
        r is Ok && #[trigger] super::forward_outcome(
            w,
            chunks[m as int],
            pos,
            lanes[m as int],
            lanes[m as int + 1],
            r,
        );
    law_lanes_hold_their_position(
        w,
        chunks[m as int],
        pos,
        lanes[m as int],
        lanes[m as int + 1],
        r,
    );
}

/// Two lanes have entries of the same layers, and of the same shapes.
pub open spec fn are_shaped_alike(a: Seq<Option<KvView>>, b: Seq<Option<KvView>>) -> bool {
    &&& a.len() == b.len()
    &&& forall|i: int|
        0 <= i < a.len() ==> match (#[trigger] a[i], b[i]) {
            (Some(x), Some(y)) => x.k_dims == y.k_dims && x.v_dims == y.v_dims,
            (None, None) => true,
            _ => false,
        }
}

/// Lanes that have consumed as many positions have entries of the same shapes.
proof fn lemma_shaped_alike(
    w: Weights,
    a: Seq<Option<KvView>>,
    b: Seq<Option<KvView>>,
    batch: usize,
    pos: int,
)
    requires
        lane_at(w, a, batch, pos),
        lane_at(w, b, batch, pos),
    ensures
        are_shaped_alike(a, b),
{
    assert forall|i: int| 0 <= i < a.len() implies match (#[trigger] a[i], b[i]) {
        (Some(x), Some(y)) => x.k_dims == y.k_dims && x.v_dims == y.v_dims,
        (None, None) => true,
        _ => false,
    } by {
        assert(entry_at(w.layers@[i], a[i], batch, pos));
        assert(entry_at(w.layers@[i], b[i], batch, pos));
        if a[i] is Some {
            assert(a[i]->Some_0.k_dims =~= b[i]->Some_0.k_dims);
            assert(a[i]->Some_0.v_dims =~= b[i]->Some_0.v_dims);
        }
    }
}

/// However a stream is cut into chunks, the lane that took them all ends at the same position and
/// holds, layer by layer, keys and values of the same shapes, for the same retained positions.
pub proof fn law_chunks_leave_lanes_alike(
    w: Weights,
    a: Seq<Traced>,
    b: Seq<Traced>,
    lanes_a: Seq<Gemma4KvCache>,
    lanes_b: Seq<Gemma4KvCache>,
    batch: usize,
)
    requires
        w.is_regular(),
        w.layers@.len() > 0,
        took(w, a, lanes_a, batch),
        took(w, b, lanes_b, batch),
        a.len() > 0,
        b.len() > 0,
        consumed(a, a.len()) == consumed(b, b.len()),
    ensures
        lanes_a.last().position() == lanes_b.last().position() == consumed(a, a.len()),
        lane_at(w, lanes_a.last()@, batch, consumed(a, a.len())),
        lane_at(w, lanes_b.last()@, batch, consumed(a, a.len())),
        are_shaped_alike(lanes_a.last()@, lanes_b.last()@),
{
    lemma_took(w, a, lanes_a, batch, a.len());
    lemma_took(w, b, lanes_b, batch, b.len());
    lemma_shaped_alike(w, lanes_a.last()@, lanes_b.last()@, batch, consumed(a, a.len()));
}

/// Every layer attends as many keys as its mask has columns: the positions that its kind retains
/// and the new ones. So does a layer that shares, where something was put aside for it.
pub proof fn law_masks_fit_keys(
    w: Weights,
    n: nat,
    ids: Traced,
    index_pos: usize,
    lane: Seq<Option<KvView>>,
    picks: Seq<Seq<Seq<usize>>>,
)
    requires
        w.is_regular(),
        !w.refuses_input(ids, index_pos),
        index_pos != 0 ==> lane_at(w, lane, ids.dims()[0], index_pos as int),
        n < w.layers@.len(),
        ({
            let before = w.run(
                n,
                w.pass(ids, index_pos),
                w.start(ids, index_pos, lane),
                picks,
            );
            !w.layers@[n as int].attn_refuses(before.shared)
        }),
    ensures
        attended(w, n, ids, index_pos, lane, picks) == mask::retained(
            index_pos as int,
            w.window_of(w.layers@[n as int].is_global),
        ) + ids.dims()[1],
{
    lemma_passed(w, n, ids, index_pos, lane, picks);
    let pass = w.pass(ids, index_pos);
    let before = w.run(n, pass, w.start(ids, index_pos, lane), picks);
    let layer = w.layers@[n as int];
    if layer.kv is Compute {
        let new = layer.new_kv(layer.input_layernorm.of(before.xs), before.dims, pass.index_pos);
        lemma_entry_moves_on(
            layer,
            before.slots[n as int],
            new,
            ids.dims()[0],
            index_pos as int,
        );
    }
}

/// A pass at position 0 forgets the lane: whatever it can do on one lane it can do on any other
/// that fits the model, with the same result and the same lane after it, and it is bound to succeed
/// on both or on neither.
pub proof fn law_fresh_pass_forgets(
    w: Weights,
    ids: Traced,
    a: Gemma4KvCache,
    b: Gemma4KvCache,
    after: Gemma4KvCache,
    r: Result<Traced, ModelError>,
)
    requires
        !w.refuses_input(ids, 0),
        !w.refuses_layers(a.slots().len()),
        !w.refuses_layers(b.slots().len()),
    ensures
        w.start(ids, 0, a@) == w.start(ids, 0, b@),
        super::can_forward(w, ids, 0, a) == super::can_forward(w, ids, 0, b),
        super::forward_outcome(w, ids, 0, a, after, r) == super::forward_outcome(
            w,
            ids,
            0,
            b,
            after,
            r,
        ),
{
}

/// In a model without experts two passes over the same input at position 0 that succeed give
/// logits of one record and shape, and leave equal lanes, whatever the lanes held before.
pub proof fn law_fresh_passes_agree(
    w: Weights,
    ids: Traced,
    a: Gemma4KvCache,
    b: Gemma4KvCache,
    after_a: Gemma4KvCache,
    after_b: Gemma4KvCache,
    ra: Result<Traced, ModelError>,
    rb: Result<Traced, ModelError>,
)
    requires
        forall|i: int| 0 <= i < w.layers@.len() ==> (#[trigger] w.layers@[i]).moe is None,
        super::forward_outcome(w, ids, 0, a, after_a, ra),
        super::forward_outcome(w, ids, 0, b, after_b, rb),
        ra is Ok,
        rb is Ok,
    ensures
        ra->Ok_0.expr() == rb->Ok_0.expr(),
        ra->Ok_0.dims() == rb->Ok_0.dims(),
        after_a@ == after_b@,
        after_a.position() == after_b.position(),
{
    let pass = w.pass(ids, 0);
    let start = w.start(ids, 0, a@);
    assert(start == w.start(ids, 0, b@));
    let pa = choose|picks: Seq<Seq<Seq<usize>>>| #[trigger]
        w.are_picks(pass, start, picks) && ({
            let end = w.run(w.layers@.len(), pass, start, picks);
            &&& ra->Ok_0.expr() == w.logits(end.xs, ids.dims()[1] as int)
            &&& ra->Ok_0.dims() == w.logits_dims(end.dims)
            &&& after_a@ == end.slots
        });
    let pb = choose|picks: Seq<Seq<Seq<usize>>>| #[trigger]
        w.are_picks(pass, start, picks) && ({
            let end = w.run(w.layers@.len(), pass, start, picks);
            &&& rb->Ok_0.expr() == w.logits(end.xs, ids.dims()[1] as int)
            &&& rb->Ok_0.dims() == w.logits_dims(end.dims)
            &&& after_b@ == end.slots
        });
    assert forall|i: int| 0 <= i < w.layers@.len() implies pa[i] == pb[i] by {
        assert(w.layer_picks(i, pass, start, pa));
        assert(w.layer_picks(i, pass, start, pb));
        assert(w.layers@[i].moe is None);
        assert(pa[i] =~= pb[i]);
    }
    assert(pa =~= pb);
}

/// In a loaded model a layer that shares always finds keys and values put aside, as long as some
/// layer of its kind does not share: those of the last such layer.
pub proof fn law_shared_layers_find_their_donor(
    ts: Seq<(String, Arc<candle_core::quantized::QTensor>)>,
    cfg: GgufConfig,
    device: candle_core::Device,
    w: Weights,
    i: nat,
    j: int,
    pass: Pass,
    start: PassState,
    picks: Seq<Seq<Seq<usize>>>,
)
    requires
        loader::is_model(ts, cfg, device, w),
        cfg.shared_kv_layers > 0,
        cfg.first_shared() <= i < w.layers@.len(),
        0 <= j < cfg.first_shared(),
        cfg.is_sliding@[j] == cfg.is_sliding@[i as int],
        start.shared == SharedView::empty(),
    ensures
        w.layers@[i as int].kv is Shared,
        !w.lacks_donor(i as int),
        w.run(i, pass, start, picks).shared.get(w.layers@[i as int].is_global) is Some,
{
    let sliding = cfg.is_sliding@[i as int];
    config::law_donor_is_last_of_its_kind(cfg.is_sliding@, cfg.first_shared(), sliding);
    let d = config::last_of_kind(cfg.is_sliding@, cfg.first_shared(), sliding)->Some_0;
    assert(loader::is_layer(ts, cfg, device, i as int, w.layers@[i as int]));
    assert(loader::is_layer(ts, cfg, device, d, w.layers@[d]));
    assert(w.is_donor(d, !sliding));
    super::law_put_aside_by_donors(w, i, pass, start, picks, !sliding);
}

/// A loaded model runs every layer that has heads for keys and values and that either computes them
/// or shares those of an earlier layer of its kind that does: the model and its layers never differ
/// on per-layer inputs.
pub proof fn law_loaded_layers_run(
    ts: Seq<(String, Arc<candle_core::quantized::QTensor>)>,
    cfg: GgufConfig,
    device: candle_core::Device,
    w: Weights,
    i: int,
    j: int,
)
    requires
        loader::is_model(ts, cfg, device, w),
        0 <= i < w.layers@.len(),
        cfg.head_count_kv@[i] > 0,
        i < cfg.first_shared() || (cfg.shared_kv_layers > 0 && 0 <= j < cfg.first_shared()
            && cfg.is_sliding@[j] == cfg.is_sliding@[i]),
    ensures
        !w.refuses_layer(i),
{
    assert(loader::is_layer(ts, cfg, device, i, w.layers@[i]));
    if i >= cfg.first_shared() {
        let sliding = cfg.is_sliding@[i];
        config::law_donor_is_last_of_its_kind(cfg.is_sliding@, cfg.first_shared(), sliding);
        let d = config::last_of_kind(cfg.is_sliding@, cfg.first_shared(), sliding)->Some_0;
        assert(loader::is_layer(ts, cfg, device, d, w.layers@[d]));
        assert(w.is_donor(d, !sliding));
    }
}

/// A loaded model's sliding layers keep the model's window and its global layers everything.
pub proof fn law_loaded_windows(
    ts: Seq<(String, Arc<candle_core::quantized::QTensor>)>,
    cfg: GgufConfig,
    device: candle_core::Device,
    w: Weights,
    i: int,
)
    requires
        loader::is_model(ts, cfg, device, w),
        0 <= i < w.layers@.len(),
    ensures
        w.layers@[i].window == w.window_of(w.layers@[i].is_global),
{
    assert(loader::is_layer(ts, cfg, device, i, w.layers@[i]));
}

/// A lane that took a generation's context at the generation's position is where the generation's
/// next context begins, whichever token is drawn: the next pass is not refused for its position.
pub proof fn law_generation_never_drifts(
    w: Weights,
    g: GenerationView,
    ids: Traced,
    start: usize,
    next: usize,
    before: Gemma4KvCache,
    after: Gemma4KvCache,
    r: Result<Traced, ModelError>,
    token: u32,
)
    requires
        g.generated > 0 ==> g.tokens.len() > 0,
        start == g.start(),
        next == g.push(token).start(),
        ids.dims().len() == 2,
        ids.dims()[1] == g.context().len(),
        super::forward_outcome(w, ids, start, before, after, r),
        r is Ok,
    ensures
        after.position() == next,
        !w.refuses_position(next, after.position()),
{
    generation::law_passes_follow_on(g, token);
}

/// Two lanes that hold the same are moved on alike: a clone of a lane gives what its source gives.
pub proof fn law_clones_agree(
    w: Weights,
    ids: Traced,
    index_pos: usize,
    a: Gemma4KvCache,
    b: Gemma4KvCache,
)
    requires
        a.slots() == b.slots(),
        a.position() == b.position(),
    ensures
        w.start(ids, index_pos, a@) == w.start(ids, index_pos, b@),
        w.refuses_layers(a.slots().len()) == w.refuses_layers(b.slots().len()),
        w.refuses_position(index_pos, a.position()) == w.refuses_position(index_pos, b.position()),
{
}

/// A layer without a projection for values does what one does whose projection for values has the
/// weight of that for keys.
pub proof fn law_values_share_the_key_projection(
    l: LayerWeights,
    m: LayerWeights,
    i: nat,
    xs: Expr,
    dims: Seq<usize>,
    mask: Option<Expr>,
    index_pos: nat,
    slot: Option<KvView>,
    shared: SharedView,
    inputs: Option<Expr>,
    model_dims: Seq<usize>,
    picks: Seq<Seq<usize>>,
)
    requires
        m == (LayerWeights { kv: m.kv, ..l }),
        l.kv is Compute,
        m.kv is Compute,
        l.kv->wk.weight() == m.kv->wk.weight(),
        l.kv->k_norm == m.kv->k_norm,
        l.kv->wv is None,
        m.kv->wv matches Some(wv) && wv.weight() == m.kv->wk.weight(),
    ensures
        l.new_kv(xs, dims, index_pos) == m.new_kv(xs, dims, index_pos),
        l.attn(xs, dims, mask, index_pos, slot, shared) == m.attn(
            xs,
            dims,
            mask,
            index_pos,
            slot,
            shared,
        ),
        l.step(i, xs, dims, mask, index_pos, slot, shared, inputs, model_dims, picks) == m.step(
            i,
            xs,
            dims,
            mask,
            index_pos,
            slot,
            shared,
            inputs,
            model_dims,
            picks,
        ),
{
    let x = l.input_layernorm.of(xs);
    assert(l.new_kv(x, dims, index_pos) == m.new_kv(x, dims, index_pos));
    assert(l.attn(x, dims, mask, index_pos, slot, shared) == m.attn(
        x,
        dims,
        mask,
        index_pos,
        slot,
        shared,
    ));
}

/// Both passes have the same mask for a kind of layer, and all else but the other mask.
pub open spec fn agree_for(a: Pass, b: Pass, is_global: bool) -> bool {
    &&& a.index_pos == b.index_pos
    &&& a.inputs == b.inputs
    &&& a.model_dims == b.model_dims
    &&& if is_global {
        a.full_mask == b.full_mask
    } else {
        a.sliding_mask == b.sliding_mask
    }
}

/// The mask of the other kind of layer has no influence: as long as all layers are of one kind, a
/// pass is where it would be with any other mask for the other kind.
pub proof fn law_only_the_own_mask_counts(
    w: Weights,
    n: nat,
    a: Pass,
    b: Pass,
    start: PassState,
    picks: Seq<Seq<Seq<usize>>>,
    is_global: bool,
)
    requires
        agree_for(a, b, is_global),
        n <= w.layers@.len(),
        forall|i: int| 0 <= i < n ==> (#[trigger] w.layers@[i]).is_global == is_global,
    ensures
        w.run(n, a, start, picks) == w.run(n, b, start, picks),
    decreases n,
{
    if n > 0 {
        assert(w.layers@[n - 1].is_global == is_global);
        law_only_the_own_mask_counts(w, (n - 1) as nat, a, b, start, picks, is_global);
    }
}

/// The keys and values that layer `i` computes in a pass for the new positions.
pub open spec fn computed(
    w: Weights,
    i: int,
    ids: Traced,
    index_pos: usize,
    lane: Seq<Option<KvView>>,
    picks: Seq<Seq<Seq<usize>>>,
) -> KvView {
    let pass = w.pass(ids, index_pos);
    let before = w.run(i as nat, pass, w.start(ids, index_pos, lane), picks);
    let layer = w.layers@[i];
    layer.new_kv(layer.input_layernorm.of(before.xs), before.dims, index_pos as nat)
}

/// New keys and values have a place for each head, each new position and each entry of a head.
proof fn lemma_new_kv_is_recorded(layer: LayerWeights, x: Expr, dims: Seq<usize>, index_pos: nat)
    requires
        layer.kv is Compute,
        dims.len() == 3,
    ensures
        attention::is_recorded(layer.new_kv(x, dims, index_pos)),
        layer.new_kv(x, dims, index_pos).k_dims == seq![
            dims[0],
            layer.n_kv_head,
            dims[1],
            layer.head_dim,
        ],
{
    let new = layer.new_kv(x, dims, index_pos);
    let shape = seq![dims[0], layer.n_kv_head, dims[1], layer.head_dim];
    let k_norm = layer.kv->k_norm;
    let wk = layer.kv->wk;
    let wv = layer.kv->wv;
    let k = crate::tensor::packed::packed_product(wk.weight(), x);
    let v = match wv {
        Some(wv) => crate::tensor::packed::packed_product(wv.weight(), x),
        None => k,
    };
    lemma_heads_shape(layer, k, dims, layer.n_kv_head);
    lemma_heads_shape(layer, v, dims, layer.n_kv_head);
    let heads = layer.heads(k, dims, layer.n_kv_head);
    let a = tensor::unary(UnaryOp::Contiguous, heads);
    let b = k_norm.of(a);
    let c = tensor::unary(UnaryOp::Contiguous, b);
    assert(shape_of(a) == shape_of(heads));
    assert(shape_of(tensor::unary(UnaryOp::Contiguous, a)) == shape_of(a));
    assert(shape_of(b) == shape_of(tensor::unary(UnaryOp::Contiguous, a)));
    assert(shape_of(c) == shape_of(b));
    assert(shape_of(new.k) == shape_of(c));
    attention::lemma_v_norm_shape(
        layer.heads(v, dims, layer.n_kv_head),
        layer.rms_eps.expr(),
        candle_core::DType::F32,
    );
    assert(new.k_dims == shape);
}

/// The shape of a projection seen as heads.
proof fn lemma_heads_shape(layer: LayerWeights, x: Expr, dims: Seq<usize>, heads: usize)
    requires
        dims.len() == 3,
    ensures
        shape_of(layer.heads(x, dims, heads)) == seq![dims[0], heads, dims[1], layer.head_dim],
{
    let split = tensor::reshaped(x, seq![dims[0], dims[1], heads, layer.head_dim]);
    assert(shape_of(split) == seq![dims[0], dims[1], heads, layer.head_dim]);
    assert(shape_of(layer.heads(x, dims, heads)) =~= seq![
        dims[0],
        heads,
        dims[1],
        layer.head_dim,
    ]);
}

/// A layer's entry is left alone by the other layers of a pass.
proof fn lemma_slots_of_others(
    w: Weights,
    n: nat,
    i: int,
    pass: Pass,
    start: PassState,
    picks: Seq<Seq<Seq<usize>>>,
)
    requires
        0 <= i < w.layers@.len(),
        n <= w.layers@.len(),
        start.slots.len() == w.layers@.len(),
    ensures
        w.run(n, pass, start, picks).slots.len() == w.layers@.len(),
        n <= i ==> w.run(n, pass, start, picks).slots[i] == start.slots[i],
        n > i ==> w.run(n, pass, start, picks).slots[i] == w.run(
            (i + 1) as nat,
            pass,
            start,
            picks,
        ).slots[i],
    decreases n,
{
    if n > 0 {
        lemma_slots_of_others(w, (n - 1) as nat, i, pass, start, picks);
    }
}

/// What a layer that computes keys and values attends in a pass holds the positions that its kind
/// retains, then the new ones, each in its place; and its entry after the pass holds the last of
/// these, each in its place.
pub proof fn law_pass_keeps_positions_in_place(
    w: Weights,
    i: int,
    ids: Traced,
    index_pos: usize,
    lane: Seq<Option<KvView>>,
    picks: Seq<Seq<Seq<usize>>>,
    news: Seq<KvView>,
)
    requires
        w.is_regular(),
        !w.refuses_input(ids, index_pos),
        0 <= i < w.layers@.len(),
        w.layers@[i].kv is Compute,
        index_pos != 0 ==> lane_at(w, lane, ids.dims()[0], index_pos as int),
        index_pos == 0 ==> news.len() == 0,
        index_pos != 0 ==> lane[i] is Some && attention::shows(
            lane[i]->Some_0,
            news,
            index_pos - mask::retained(index_pos as int, w.layers@[i].window),
        ),
        attention::begins(news, news.len() as int) == index_pos,
        attention::are_pieces(news, w.layers@[i].key_dims(ids.dims()[0], 0)),
    ensures
        ({
            let pass = w.pass(ids, index_pos);
            let start = w.start(ids, index_pos, lane);
            let layer = w.layers@[i];
            let new = computed(w, i, ids, index_pos, lane, picks);
            let all = news.push(new);
            let end = index_pos + ids.dims()[1];
            let after = w.run(w.layers@.len(), pass, start, picks).slots[i];
            &&& attention::are_pieces(all, layer.key_dims(ids.dims()[0], 0))
            &&& attention::begins(all, all.len() as int) == end
            &&& attention::shows(
                attention::kv_appended(start.slots[i], new),
                all,
                index_pos - mask::retained(index_pos as int, layer.window),
            )
            &&& after is Some
            &&& attention::shows(after->Some_0, all, end - mask::retained(end, layer.window))
        }),
{
    let pass = w.pass(ids, index_pos);
    let start = w.start(ids, index_pos, lane);
    let layer = w.layers@[i];
    let new = computed(w, i, ids, index_pos, lane, picks);
    let all = news.push(new);
    let end = index_pos + ids.dims()[1];
    let first = index_pos - mask::retained(index_pos as int, layer.window);
    let before = w.run(i as nat, pass, start, picks);
    lemma_passed(w, i as nat, ids, index_pos, lane, picks);
    lemma_new_kv_is_recorded(
        layer,
        layer.input_layernorm.of(before.xs),
        before.dims,
        index_pos as nat,
    );
    assert(new.k_dims.update(2, 0) =~= layer.key_dims(ids.dims()[0], 0).update(2, 0));
    assert(start.slots.len() == w.layers@.len());
    lemma_slots_of_others(w, i as nat, i, pass, start, picks);
    lemma_slots_of_others(w, w.layers@.len(), i, pass, start, picks);
    if index_pos != 0 {
        assert(start.slots[i] == lane[i]);
        assert(entry_at(layer, lane[i], ids.dims()[0], index_pos as int));
        let old = lane[i]->Some_0;
        assert(old.k_dims.update(2, 0) =~= new.k_dims.update(2, 0));
    }
    assert forall|m: int| 0 <= m < news.len() implies attention::is_recorded(#[trigger] news[m])
        && news[m].k_dims.update(2, 0) == new.k_dims.update(2, 0) by {}
    attention::law_appending_follows_on(start.slots[i], new, news, first);
    attention::lemma_begins_more(news, new, news.len() as int);
    let kv = attention::kv_appended(start.slots[i], new);
    assert(attention::are_pieces(all, kv.k_dims));
    attention::law_retained_are_the_last(kv, layer.window, all, first);
    assert(attention::are_pieces(all, layer.key_dims(ids.dims()[0], 0)));
}

/// Keys and values are those that layer `i` computes in a pass, with picks that it may make there.
pub open spec fn is_computed(
    w: Weights,
    i: int,
    ids: Traced,
    index_pos: usize,
    lane: Seq<Option<KvView>>,
    new: KvView,
) -> bool {
    exists|picks: Seq<Seq<Seq<usize>>>| #[trigger]
        w.are_picks(w.pass(ids, index_pos), w.start(ids, index_pos, lane), picks) && new
            == computed(w, i, ids, index_pos, lane, picks)
}

/// The keys and values of layer `i` that a lane was given chunk by chunk.
pub open spec fn are_computed(
    w: Weights,
    i: int,
    chunks: Seq<Traced>,
    lanes: Seq<Gemma4KvCache>,
    news: Seq<KvView>,
) -> bool {
    forall|m: int|
        0 <= m < news.len() ==> is_computed(
            w,
            i,
            chunks[m],
            consumed(chunks, m as nat) as usize,
            lanes[m]@,
            #[trigger] news[m],
        )
}

/// However a stream was cut into chunks, a lane that took them holds in every place of every layer
/// that computes keys and values those of one absolute position: the last place is the last position
/// of the stream, the one before it the position before that, and so on for as many as the layer's
/// window keeps.
pub proof fn law_lanes_hold_the_last_positions(
    w: Weights,
    i: int,
    chunks: Seq<Traced>,
    lanes: Seq<Gemma4KvCache>,
    batch: usize,
    n: nat,
)
    requires
        w.is_regular(),
        took(w, chunks, lanes, batch),
        0 < n <= chunks.len(),
        0 <= i < w.layers@.len(),
        w.layers@[i].kv is Compute,
    ensures
        lanes[n as int]@[i] is Some,
        exists|news: Seq<KvView>|
            {
                &&& news.len() == n
                &&& are_computed(w, i, chunks, lanes, news)
                &&& attention::are_pieces(news, w.layers@[i].key_dims(batch, 0))
                &&& attention::begins(news, n as int) == consumed(chunks, n)
                &&& #[trigger] attention::shows(
                    lanes[n as int]@[i]->Some_0,
                    news,
                    consumed(chunks, n) - mask::retained(consumed(chunks, n), w.layers@[i].window),
                )
            },
    decreases n,
{
    let m = (n - 1) as nat;
    let layer = w.layers@[i];
    let pos = consumed(chunks, m) as usize;
    assert(chunks[m as int].dims()[0] == batch);
    assert(m == 0 ==> consumed(chunks, m) == 0);
    let old = if m > 0 {
        law_lanes_hold_the_last_positions(w, i, chunks, lanes, batch, m);
        lemma_took(w, chunks, lanes, batch, m);
        choose|news: Seq<KvView>|
            {
                &&& news.len() == m
                &&& are_computed(w, i, chunks, lanes, news)
                &&& attention::are_pieces(news, layer.key_dims(batch, 0))
                &&& attention::begins(news, m as int) == consumed(chunks, m)
                &&& #[trigger] attention::shows(
                    lanes[m as int]@[i]->Some_0,
                    news,
                    consumed(chunks, m) - mask::retained(consumed(chunks, m), layer.window),
                )
            }
    } else {
        Seq::empty()
    };
    lemma_consumed(w, chunks, lanes, batch, m);
    let ids = chunks[m as int];
    let lane = lanes[m as int]@;
    let r = choose|r: Result<Traced, ModelError>|
        r is Ok && #[trigger] super::forward_outcome(
            w,
            ids,
            pos,
            lanes[m as int],
            lanes[m as int + 1],
            r,
        );
    let picks = pass_picks(w, ids, pos, lanes[m as int], lanes[m as int + 1], r);
    law_pass_keeps_positions_in_place(w, i, ids, pos, lane, picks, old);
    let news = old.push(computed(w, i, ids, pos, lane, picks));
    lemma_computed_more(w, i, chunks, lanes, old, picks);
    assert(attention::shows(
        lanes[n as int]@[i]->Some_0,
        news,
        consumed(chunks, n) - mask::retained(consumed(chunks, n), layer.window),
    ));
}

/// The picks of a pass that succeeded.
proof fn pass_picks(
    w: Weights,
    ids: Traced,
    index_pos: usize,
    before: Gemma4KvCache,
    after: Gemma4KvCache,
    r: Result<Traced, ModelError>,
) -> (picks: Seq<Seq<Seq<usize>>>)
    requires
        super::forward_outcome(w, ids, index_pos, before, after, r),
        r is Ok,
    ensures
        w.are_picks(w.pass(ids, index_pos), w.start(ids, index_pos, before@), picks),
        after@ == w.run(
            w.layers@.len(),
            w.pass(ids, index_pos),
            w.start(ids, index_pos, before@),
            picks,
        ).slots,
{
    choose|picks: Seq<Seq<Seq<usize>>>| #[trigger]
        w.are_picks(w.pass(ids, index_pos), w.start(ids, index_pos, before@), picks) && after@
            == w.run(
            w.layers@.len(),
            w.pass(ids, index_pos),
            w.start(ids, index_pos, before@),
            picks,
        ).slots
}

/// The next chunk's keys and values follow those of the chunks before it.
proof fn lemma_computed_more(
    w: Weights,
    i: int,
    chunks: Seq<Traced>,
    lanes: Seq<Gemma4KvCache>,
    news: Seq<KvView>,
    picks: Seq<Seq<Seq<usize>>>,
)
    requires
        are_computed(w, i, chunks, lanes, news),
        ({
            let m = news.len() as int;
            let pos = consumed(chunks, m as nat) as usize;
            w.are_picks(w.pass(chunks[m], pos), w.start(chunks[m], pos, lanes[m]@), picks)
        }),
    ensures
        ({
            let m = news.len() as int;
            let pos = consumed(chunks, m as nat) as usize;
            are_computed(
                w,
                i,
                chunks,
                lanes,
                news.push(computed(w, i, chunks[m], pos, lanes[m]@, picks)),
            )
        }),
{
    let m = news.len() as int;
    let new = computed(w, i, chunks[m], consumed(chunks, m as nat) as usize, lanes[m]@, picks);
    let more = news.push(new);
    assert forall|k: int| 0 <= k < more.len() implies is_computed(
        w,
        i,
        chunks[k],
        consumed(chunks, k as nat) as usize,
        lanes[k]@,
        #[trigger] more[k],
    ) by {
        if k < m {
            assert(more[k] == news[k]);
        } else {
            assert(more[k] == new);
        }
    }
}

/// A lane that took chunks consumed a position of each.
proof fn lemma_consumed(
    w: Weights,
    chunks: Seq<Traced>,
    lanes: Seq<Gemma4KvCache>,
    batch: usize,
    m: nat,
)
    requires
        took(w, chunks, lanes, batch),
        m < chunks.len(),
    ensures
        consumed(chunks, m) >= 0,
        m > 0 ==> consumed(chunks, m) > 0,
        consumed(chunks, m) + chunks[m as int].dims()[1] <= usize::MAX,
        chunks[m as int].dims()[1] > 0,
        !w.refuses_input(chunks[m as int], consumed(chunks, m) as usize),
    decreases m,
{
    if m > 0 {
        lemma_consumed(w, chunks, lanes, batch, (m - 1) as nat);
    }
    assert(chunks[m as int].dims()[0] == batch);
}

/// Every layer attends, in each column of its mask, the key and the value of the position that the
/// column stands for: where a query's row admits a column, the query may attend the position whose
/// key stands there, and nowhere else.
pub proof fn law_columns_hold_their_positions(
    w: Weights,
    i: int,
    ids: Traced,
    index_pos: usize,
    lane: Seq<Option<KvView>>,
    picks: Seq<Seq<Seq<usize>>>,
    news: Seq<KvView>,
    m: int,
    at: Seq<int>,
    row: int,
    v: Values,
)
    requires
        w.is_regular(),
        !w.refuses_input(ids, index_pos),
        0 <= i < w.layers@.len(),
        w.layers@[i].kv is Compute,
        index_pos != 0 ==> lane_at(w, lane, ids.dims()[0], index_pos as int),
        index_pos == 0 ==> news.len() == 0,
        index_pos != 0 ==> lane[i] is Some && attention::shows(
            lane[i]->Some_0,
            news,
            index_pos - mask::retained(index_pos as int, w.layers@[i].window),
        ),
        attention::begins(news, news.len() as int) == index_pos,
        attention::are_pieces(news, w.layers@[i].key_dims(ids.dims()[0], 0)),
        ids.dims()[1] > 1,
        0 <= row < ids.dims()[1],
        ({
            let all = news.push(computed(w, i, ids, index_pos, lane, picks));
            &&& 0 <= m < all.len()
            &&& meaning::is_index(at, all[m].k_dims)
            &&& index_pos - mask::retained(index_pos as int, w.layers@[i].window)
                <= attention::begins(all, m) + at[2]
        }),
    ensures
        ({
            let all = news.push(computed(w, i, ids, index_pos, lane, picks));
            let layer = w.layers@[i];
            let kv = attention::kv_appended(w.start(ids, index_pos, lane).slots[i], all.last());
            let position = attention::begins(all, m) + at[2];
            let column = position - (index_pos - mask::retained(index_pos as int, layer.window));
            let mask = w.mask_of(
                layer.is_global,
                ids.dims()[0],
                ids.dims()[1],
                index_pos,
                ids.device(),
            );
            &&& entry(kv.k, at.update(2, column), v) == entry(all[m].k, at, v)
            &&& entry(kv.v, at.update(2, column), v) == entry(all[m].v, at, v)
            &&& mask is Some
            &&& mask::attends(
                index_pos as nat,
                ids.dims()[1] as nat,
                index_pos + row,
                position,
                layer.window,
            ) <==> position <= index_pos + row && (layer.window matches Some(w) ==> index_pos + row
                <= position + w)
            &&& entry(mask->Some_0, seq![at[0], 0, row, column], v) == (v.word)(
                if position <= index_pos + row && (layer.window matches Some(w) ==> index_pos + row
                    <= position + w) {
                    mask::ADMITTED
                } else {
                    mask::MASKED
                },
            )
        }),
{
    law_pass_keeps_positions_in_place(w, i, ids, index_pos, lane, picks, news);
    let layer = w.layers@[i];
    let new = computed(w, i, ids, index_pos, lane, picks);
    let all = news.push(new);
    let kept = mask::retained(index_pos as int, layer.window);
    let position = attention::begins(all, m) + at[2];
    let column = position - (index_pos - kept);
    attention::lemma_begins(all, m, all.len() as int);
    assert(attention::is_recorded(all[m]));
    assert(0 <= at[2] < all[m].k_dims[2]);
    assert(entry(all[m].k, at, v) == entry(all[m].k, at, v));
    let kv_len = (kept + ids.dims()[1]) as usize;
    mask::law_chunks_attend_alike(
        index_pos as nat,
        ids.dims()[1] as nat,
        index_pos as nat,
        ids.dims()[1] as nat,
        index_pos + row,
        position,
        layer.window,
    );
    assert(all[m].k_dims.update(2, 0)[0] == layer.key_dims(ids.dims()[0], 0).update(2, 0)[0]);
    assert(0 <= at[0] < all[m].k_dims[0]);
    mask::law_mask_entries(
        ids.dims()[0],
        ids.dims()[1],
        index_pos,
        kv_len,
        layer.window,
        ids.device(),
        seq![at[0], 0, row, column],
        v,
    );
}

/// A layer that shares attends the keys and values of the last layer of its kind that puts some aside:
/// all that that layer attends in the same pass, not what its cache entry keeps of them.
pub proof fn law_sharing_layers_attend_their_donors_keys(
    w: Weights,
    n: nat,
    d: int,
    pass: Pass,
    start: PassState,
    picks: Seq<Seq<Seq<usize>>>,
    is_global: bool,
)
    requires
        n <= w.layers@.len(),
        0 <= d < n,
        w.is_donor(d, is_global),
        forall|j: int| d < j < n ==> !#[trigger] w.is_donor(j, is_global),
        start.slots.len() == w.layers@.len(),
    ensures
        ({
            let layer = w.layers@[d];
            let before = w.run(d as nat, pass, start, picks);
            w.run(n, pass, start, picks).shared.get(is_global) == Some(
                attention::kv_appended(
                    start.slots[d],
                    layer.new_kv(
                        layer.input_layernorm.of(before.xs),
                        before.dims,
                        pass.index_pos,
                    ),
                ),
            )
        }),
    decreases n,
{
    lemma_slots_of_others(w, d as nat, d, pass, start, picks);
    if n - 1 > d {
        assert(!w.is_donor(n - 1, is_global));
        law_sharing_layers_attend_their_donors_keys(
            w,
            (n - 1) as nat,
            d,
            pass,
            start,
            picks,
            is_global,
        );
    }
}

/// The per-layer inputs of a pass are made of the same identifiers and the same hidden state that the
/// first layer gets, and every layer is told the position of the pass.
pub proof fn law_passes_begin_with_the_embeddings(
    w: Weights,
    ids: Traced,
    index_pos: usize,
    lane: Seq<Option<KvView>>,
    at: Seq<int>,
    v: Values,
)
    requires
        at.len() > 0,
    ensures
        w.pass(ids, index_pos).inputs == w.per_layer_inputs(
            ids.expr(),
            w.start(ids, index_pos, lane).xs,
            ids.dims()[0],
            ids.dims()[1],
        ),
        w.pass(ids, index_pos).index_pos == index_pos,
        entry(w.start(ids, index_pos, lane).xs, at, v) == crate::formulas::packed_matrix(
            w.tok_embeddings.source(),
            v,
        )((v.row)(entry(ids.expr(), at.drop_last(), v)), at.last()) * (v.root)(
            w.embedding_length as real,
        ),
        w.start(ids, index_pos, lane).shared == SharedView::empty(),
        index_pos != 0 && lane.len() > 0 ==> w.start(ids, index_pos, lane).slots == lane,
{
    super::entries::law_packed_embeddings(w, ids.expr(), at, v);
}

/// A pass that succeeds gives the logits of the last of its positions: the scores of the last row of
/// the hidden state behind the last layer.
pub proof fn law_results_are_of_the_last_position(
    w: Weights,
    ids: Traced,
    index_pos: usize,
    before: Gemma4KvCache,
    after: Gemma4KvCache,
    t: Traced,
    at: Seq<int>,
    v: Values,
)
    requires
        super::forward_outcome(w, ids, index_pos, before, after, Ok(t)),
        at.len() == 3,
        at[1] == 0,
    ensures
        exists|picks: Seq<Seq<Seq<usize>>>|
            {
                let xs = w.run(
                    w.layers@.len(),
                    w.pass(ids, index_pos),
                    w.start(ids, index_pos, before@),
                    picks,
                ).xs;
                let n = shape_of(xs)[2] as int;
                let last = meaning::line(xs, seq![at[0], ids.dims()[1] - 1, 0], v);
                &&& #[trigger] w.are_picks(
                    w.pass(ids, index_pos),
                    w.start(ids, index_pos, before@),
                    picks,
                )
                &&& shape_of(xs).len() == 3 ==> entry(t.expr(), at, v) == crate::formulas::capped(
                    crate::formulas::apply(
                        crate::formulas::packed_matrix(w.output.weight(), v),
                        n,
                        crate::formulas::packed_normed(w.norm, last, n, v),
                    )(at[2]),
                    match w.final_logit_softcapping {
                        Some(cap) => Some(meaning::number(cap.expr(), v)),
                        None => None,
                    },
                    v,
                )
            },
{
    let pass = w.pass(ids, index_pos);
    let start = w.start(ids, index_pos, before@);
    let picks = choose|picks: Seq<Seq<Seq<usize>>>| #[trigger]
        w.are_picks(pass, start, picks) && ({
            let end = w.run(w.layers@.len(), pass, start, picks);
            &&& t.expr() == w.logits(end.xs, ids.dims()[1] as int)
            &&& t.dims() == w.logits_dims(end.dims)
            &&& after@ == end.slots
        });
    let xs = w.run(w.layers@.len(), pass, start, picks).xs;
    if shape_of(xs).len() == 3 {
        super::entries::law_packed_logits(w, xs, ids.dims()[1] as int, at, v);
    }
}

/// A pass is refused before it begins for these reasons alone, and in this order: identifiers that are
/// not one row per sequence, no positions, more positions than can be counted, a lane of a model with
/// another number of layers, and a lane that is at another position. A pass at position 0 is never
/// refused for its position. A refused pass leaves the lane's position where it was.
pub proof fn law_refusals_before_a_pass(
    w: Weights,
    ids: Traced,
    index_pos: usize,
    before: Gemma4KvCache,
    after: Gemma4KvCache,
    r: Result<Traced, ModelError>,
)
    requires
        super::forward_outcome(w, ids, index_pos, before, after, r),
    ensures
        ({
            let layers = before.slots().len();
            let refused = after.position() == before.position();
            if ids.dims().len() != 2 {
                r == Err::<Traced, ModelError>(
                    ModelError::Rank { expected: 2, got: ids.dims().len() as usize },
                ) && refused
            } else if ids.dims()[1] == 0 {
                r == Err::<Traced, ModelError>(ModelError::EmptyInput) && refused
            } else if index_pos + ids.dims()[1] > usize::MAX {
                r == Err::<Traced, ModelError>(ModelError::ShapeTooLarge) && refused
            } else if layers != 0 && layers != w.layers@.len() {
                r == Err::<Traced, ModelError>(
                    ModelError::CacheLayers {
                        cache: layers as usize,
                        model: w.layers@.len() as usize,
                    },
                ) && refused
            } else if index_pos != 0 && index_pos != before.position() {
                r == Err::<Traced, ModelError>(
                    ModelError::PositionDrift { index_pos, pos: before.position() },
                ) && refused
            } else {
                match r {
                    Ok(_) => after.position() == index_pos + ids.dims()[1],
                    Err(e) => !(e is EmptyInput) && !(e is CacheLayers) && !(e is PositionDrift),
                }
            }
        }),
{
    if !w.refuses_input(ids, index_pos) && !w.refuses_layers(before.slots().len())
        && !w.refuses_position(index_pos, before.position()) {
        if let Err(e) = r {
            assert(super::failed_outcome(w, ids, index_pos, before, after, e));
        }
    }
}

/// Every token is given as many experts as the model says, no one twice, all of which the model holds.
pub proof fn law_tokens_get_their_experts(
    block: super::moe::MoeBlock,
    residual: Expr,
    dims: Seq<usize>,
    picks: Seq<Seq<usize>>,
    n: int,
    j: int,
)
    requires
        block.are_picks(residual, dims, picks),
        0 <= n < picks.len(),
        0 <= j < picks[n].len(),
    ensures
        block.router.top_k > 0,
        picks[n].len() == block.router.top_k,
        picks[n].no_duplicates(),
        picks[n][j] < block.experts.gate_up@.len(),
        picks[n][j] < block.experts.down@.len(),
{
    assert(block.experts.has(picks[n][j]));
}

/// A pass that is not refused and fails leaves the lane at the position that the pass began at, so that
/// it can be asked for again, or, where only the logits failed, behind its own positions.
pub proof fn law_failed_passes_leave_a_position(
    w: Weights,
    ids: Traced,
    index_pos: usize,
    before: Gemma4KvCache,
    after: Gemma4KvCache,
    e: ModelError,
)
    requires
        super::forward_outcome(w, ids, index_pos, before, after, Err(e)),
        !w.refuses_input(ids, index_pos),
        !w.refuses_layers(before.slots().len()),
        !w.refuses_position(index_pos, before.position()),
    ensures
        after.position() == index_pos || after.position() == index_pos + ids.dims()[1],
        after.position() != index_pos ==> e is Candle,
        after.slots().len() == w.layers@.len(),
        index_pos != 0 ==> index_pos == before.position(),
{
}

} // verus!
