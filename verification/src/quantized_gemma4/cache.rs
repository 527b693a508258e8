//! Caller-owned lanes of cached keys and values.

use crate::attention;
use crate::tensor::Traced;
use vstd::prelude::*;

verus! {

/// Per-layer cache of keys and values for `ModelWeights`.
///
/// Holds one pair per layer that computes its own keys and values (layers that share a donor's
/// stay `None`), and the stream position up to which the lane has consumed. One set of weights can
/// serve any number of lanes. Cloning shares the tensors: a clone and its source drift apart on
/// their next appends.
pub struct Gemma4KvCache {
    pub(crate) layers: Vec<Option<(Traced, Traced)>>,
    pub(crate) pos: usize,
}

impl Gemma4KvCache {
    /// The entries, one per layer.
    pub closed spec fn slots(&self) -> Seq<Option<(Traced, Traced)>> {
        self.layers@
    }

    /// The next stream position that the lane expects.
    pub closed spec fn position(&self) -> usize {
        self.pos
    }

    /// What contracts see of the entries.
    pub open spec fn view(&self) -> Seq<Option<attention::KvView>> {
        super::slots_view(self.slots())
    }

    /// An empty lane, of as many layers as the first model that it is used with.
    pub fn new() -> (r: Gemma4KvCache)
        ensures
            r.slots() == Seq::<Option<(Traced, Traced)>>::empty(),
            r.position() == 0,
    {
        Gemma4KvCache { layers: Vec::new(), pos: 0 }
    }

    /// The next stream position that the lane expects: the number of positions consumed so far.
    pub fn pos(&self) -> (r: usize)
        ensures
            r == self.position(),
    {
        self.pos
    }

    /// Overrides the position. Only needed by callers that edit the entries and must keep the
    /// position in step with them.
    pub fn set_pos(&mut self, pos: usize)
        ensures
            final(self).position() == pos,
            final(self).slots() == old(self).slots(),
    {
        self.pos = pos;
    }

    /// Drops all cached keys and values and goes back to position 0.
    pub fn reset(&mut self)
        ensures
            final(self).position() == 0,
            final(self).slots() == Seq::new(
                old(self).slots().len(),
                |i: int| None::<(Traced, Traced)>,
            ),
    {
        self.pos = 0;
        let ghost n = self.layers@.len();
        let mut i: usize = 0;
        while i < self.layers.len()
            invariant
                self.pos == 0,
                i <= self.layers@.len(),
                self.layers@.len() == n,
                forall|j: int| 0 <= j < i ==> #[trigger] self.layers@[j] is None,
            decreases self.layers@.len() - i,
        {
            self.layers.set(i, None);
            i = i + 1;
        }
        assert(self.layers@ =~= Seq::new(n, |i: int| None::<(Traced, Traced)>));
    }

    /// The entries, one per layer: `None` on layers that share a donor's keys and values, and
    /// everywhere before the first forward. Keys and values are shaped
    /// `[batch, key heads, positions, head_dim]`.
    pub fn layers(&self) -> (r: &[Option<(Traced, Traced)>])
        ensures
            r@ == self.slots(),
    {
        self.layers.as_slice()
    }

    /// The entries for editing, one per layer. The caller keeps the position in step with what it
    /// leaves behind.
    pub fn layers_mut(&mut self) -> (r: &mut [Option<(Traced, Traced)>])
        ensures
            r@ == old(self).slots(),
            final(self).slots() == final(r)@,
            final(self).position() == old(self).position(),
    {
        self.layers.as_mut_slice()
    }
}

impl Default for Gemma4KvCache {
    fn default() -> (r: Self)
        ensures
            r.slots() == Seq::<Option<(Traced, Traced)>>::empty(),
            r.position() == 0,
    {
        Gemma4KvCache::new()
    }
}

/// The entries are those of the field.
pub(crate) broadcast proof fn lemma_slots(c: Gemma4KvCache)
    ensures
        #[trigger] c.slots() == c.layers@,
{
}

/// The position is that of the field.
pub(crate) broadcast proof fn lemma_position(c: Gemma4KvCache)
    ensures
        #[trigger] c.position() == c.pos,
{
}

/// The same entry again; the tensors are shared.
pub(crate) fn duplicate_slot(slot: &Option<(Traced, Traced)>) -> (r: Option<(Traced, Traced)>)
    ensures
        r == *slot,
{
    match slot {
        Some((k, v)) => Some((k.duplicate(), v.duplicate())),
        None => None,
    }
}

impl Clone for Gemma4KvCache {
    fn clone(&self) -> (r: Self)
        ensures
            r.slots() == self.slots(),
            r.position() == self.position(),
    {
        let mut layers: Vec<Option<(Traced, Traced)>> = Vec::new();
        let mut i: usize = 0;
        while i < self.layers.len()
            invariant
                i <= self.layers@.len(),
                layers@ == self.layers@.take(i as int),
            decreases self.layers@.len() - i,
        {
            layers.push(duplicate_slot(&self.layers[i]));
            i = i + 1;
            assert(layers@ =~= self.layers@.take(i as int));
        }
        assert(self.layers@.take(i as int) =~= self.layers@);
        Gemma4KvCache { layers, pos: self.pos }
    }
}

} // verus!
