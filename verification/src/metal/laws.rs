//! What every operation of the scheduler keeps: encoders run one at a time, and each waits for the
//! one before it.

use crate::metal::commands::{
    checked, completed, completes, count_in, digits_value, failure_text, is_checked, is_completed,
    is_failure, limit_of, sifted, unfinished, Schedule, World, DEFAULT_COMPUTE_PER_BUFFER,
};
use crate::metal::exchange::{
    Action, BlitCommandEncoder, CommandBuffer, ExchangeView, Fence, MTLCommandBufferStatus, Stop,
};
use crate::names;
use vstd::prelude::*;

verus! {

/// The encoder that an action begins, and its fence.
pub open spec fn begun(a: Action) -> Option<(u64, Fence)> {
    match a {
        Action::BeginCompute { on, compute } => Some((compute.id, compute.fence)),
        Action::BeginBlit { on, blit } => Some((blit.id, blit.fence)),
        _ => None,
    }
}

/// The fence of the encoder that was begun last.
pub open spec fn last_begun(h: Seq<Action>) -> Option<Fence>
    decreases h.len(),
{
    if h.len() == 0 {
        None
    } else {
        match begun(h.last()) {
            Some((id, fence)) => Some(fence),
            None => last_begun(h.drop_last()),
        }
    }
}

/// The encoder that was begun and has not ended.
pub open spec fn open_encoder(h: Seq<Action>) -> Option<u64>
    decreases h.len(),
{
    if h.len() == 0 {
        None
    } else {
        match h.last() {
            Action::EndEncoding { .. } => None,
            a => match begun(a) {
                Some((id, fence)) => Some(id),
                None => open_encoder(h.drop_last()),
            },
        }
    }
}

/// No encoder is begun while another is open.
pub open spec fn is_serial(h: Seq<Action>) -> bool {
    forall|i: int|
        #![trigger h[i]]
        0 <= i < h.len() && begun(h[i]) is Some ==> open_encoder(h.take(i)) is None
}

/// Every encoder waits, before anything else, for the fence of the one that was begun before it.
pub open spec fn is_chained(h: Seq<Action>) -> bool {
    forall|i: int|
        #![trigger h[i]]
        0 <= i < h.len() && begun(h[i]) is Some && last_begun(h.take(i)) is Some ==> i + 1 < h.len()
            && h[i + 1] == (Action::WaitForFence {
            encoder: begun(h[i])->Some_0.0,
            fence: last_begun(h.take(i))->Some_0,
        })
}

/// What holds of a scheduler at all times.
pub open spec fn is_sound(s: Schedule) -> bool {
    &&& is_serial(s.history)
    &&& is_chained(s.history)
    &&& match (s.encoder, s.blit) {
        (None, None) => open_encoder(s.history) is None && last_begun(s.history) == s.last_fence,
        (Some(enc), None) => open_encoder(s.history) == Some(enc.id) && last_begun(s.history)
            == Some(enc.fence),
        (None, Some(enc)) => open_encoder(s.history) == Some(enc.id) && last_begun(s.history)
            == Some(enc.fence),
        (Some(_), Some(_)) => false,
    }
}

/// An action that neither begins nor ends an encoder.
pub open spec fn is_neutral(a: Action) -> bool {
    begun(a) is None && !(a is EndEncoding)
}

/// None of these actions begins or ends an encoder.
pub open spec fn all_neutral(calls: Seq<Action>) -> bool {
    forall|i: int| 0 <= i < calls.len() ==> is_neutral(#[trigger] calls[i])
}

/// Neutral actions change nothing about the encoders.
proof fn lemma_neutral(h: Seq<Action>, a: Action)
    requires
        is_neutral(a),
    ensures
        last_begun(h.push(a)) == last_begun(h),
        open_encoder(h.push(a)) == open_encoder(h),
        is_serial(h) ==> is_serial(h.push(a)),
        is_chained(h) ==> is_chained(h.push(a)),
{
    let g = h.push(a);
    assert(g.drop_last() =~= h);
    assert forall|i: int| 0 <= i < h.len() implies #[trigger] g[i] == h[i] && g.take(i) == h.take(
        i,
    ) by {
        assert(g.take(i) =~= h.take(i));
    }
    if is_chained(h) {
        assert forall|i: int|
            #![trigger g[i]]
            0 <= i < g.len() && begun(g[i]) is Some && last_begun(g.take(i)) is Some implies i + 1
            < g.len() && g[i + 1] == (Action::WaitForFence {
            encoder: begun(g[i])->Some_0.0,
            fence: last_begun(g.take(i))->Some_0,
        }) by {
            assert(i < h.len());
            assert(h[i] == g[i]);
            assert(g[i + 1] == h[i + 1]);
        }
    }
    if is_serial(h) {
        assert forall|i: int|
            #![trigger g[i]]
            0 <= i < g.len() && begun(g[i]) is Some implies open_encoder(g.take(i)) is None by {
            assert(i < h.len());
            assert(h[i] == g[i]);
        }
    }
}

/// The end of an encoder leaves none open.
proof fn lemma_end(h: Seq<Action>, encoder: u64)
    ensures
        ({
            let g = h.push(Action::EndEncoding { encoder });
            &&& last_begun(g) == last_begun(h)
            &&& open_encoder(g) is None
            &&& is_serial(h) ==> is_serial(g)
            &&& is_chained(h) ==> is_chained(g)
        }),
{
    let g = h.push(Action::EndEncoding { encoder });
    assert(g.drop_last() =~= h);
    assert forall|i: int| 0 <= i < h.len() implies #[trigger] g[i] == h[i] && g.take(i) == h.take(
        i,
    ) by {
        assert(g.take(i) =~= h.take(i));
    }
    if is_chained(h) {
        assert forall|i: int|
            #![trigger g[i]]
            0 <= i < g.len() && begun(g[i]) is Some && last_begun(g.take(i)) is Some implies i + 1
            < g.len() && g[i + 1] == (Action::WaitForFence {
            encoder: begun(g[i])->Some_0.0,
            fence: last_begun(g.take(i))->Some_0,
        }) by {
            assert(i < h.len());
            assert(h[i] == g[i]);
            assert(g[i + 1] == h[i + 1]);
        }
    }
    if is_serial(h) {
        assert forall|i: int|
            #![trigger g[i]]
            0 <= i < g.len() && begun(g[i]) is Some implies open_encoder(g.take(i)) is None by {
            assert(i < h.len());
            assert(h[i] == g[i]);
        }
    }
}

/// An encoder that is begun while none is open, and that waits for the one before it.
proof fn lemma_begin(h: Seq<Action>, a: Action, last_fence: Option<Fence>)
    requires
        is_serial(h),
        is_chained(h),
        open_encoder(h) is None,
        last_begun(h) == last_fence,
        begun(a) is Some,
    ensures
        ({
            let (id, fence) = begun(a)->Some_0;
            let begin = h.push(a);
            let g = match last_fence {
                Some(prev) => begin.push(Action::WaitForFence { encoder: id, fence: prev }),
                None => begin,
            };
            &&& is_serial(g)
            &&& is_chained(g)
            &&& open_encoder(g) == Some(id)
            &&& last_begun(g) == Some(fence)
        }),
{
    let (id, fence) = begun(a)->Some_0;
    let begin = h.push(a);
    let g = match last_fence {
        Some(prev) => begin.push(Action::WaitForFence { encoder: id, fence: prev }),
        None => begin,
    };
    let n = h.len() as int;
    assert(begin.drop_last() =~= h);
    assert(last_fence is Some ==> g.drop_last() =~= begin);
    assert forall|i: int| 0 <= i < n implies #[trigger] g[i] == h[i] && g.take(i) == h.take(i) by {
        assert(g.take(i) =~= h.take(i));
    }
    assert(g[n] == a);
    assert(g.take(n) =~= h);
    assert(last_begun(begin) == Some(fence));
    assert(open_encoder(begin) == Some(id));
    assert forall|i: int|
        #![trigger g[i]]
        0 <= i < g.len() && begun(g[i]) is Some && last_begun(g.take(i)) is Some implies i + 1
        < g.len() && g[i + 1] == (Action::WaitForFence {
        encoder: begun(g[i])->Some_0.0,
        fence: last_begun(g.take(i))->Some_0,
    }) by {
        if i < n {
            assert(h[i] == g[i]);
            assert(g[i + 1] == h[i + 1]);
        }
    }
    assert forall|i: int|
        #![trigger g[i]]
        0 <= i < g.len() && begun(g[i]) is Some implies open_encoder(g.take(i)) is None by {
        if i < n {
            assert(h[i] == g[i]);
        }
    }
}

/// Ending the open compute encoder keeps a scheduler sound, and its fence becomes what the next
/// encoder waits for.
proof fn lemma_ended(w: World)
    requires
        is_sound(w.s),
        w.s.blit is None,
    ensures
        is_sound(w.ended().s),
        w.ended().s.encoder is None,
        w.ended().s.blit is None,
{
    if let Some(enc) = w.s.encoder {
        let a = Action::UpdateFence { encoder: enc.id, fence: enc.fence };
        lemma_neutral(w.s.history, a);
        lemma_end(w.s.history.push(a), enc.id);
    }
}

/// Handing over the current command buffer keeps a scheduler sound.
pub proof fn law_handing_over_is_sound(w: World, reset_to: usize)
    requires
        is_sound(w.s),
        w.s.blit is None,
    ensures
        is_sound(w.swap(reset_to).0.s),
        w.swap(reset_to).0.s.blit is None,
        w.swap(reset_to).0.s.encoder is None,
{
    lemma_ended(w);
    let ended = w.ended();
    lemma_neutral(ended.s.history, Action::AskStatus(ended.s.current));
    if ended.io.statuses.len() > 0 {
        let asked = ended.asked_status(ended.s.current);
        lemma_neutral(asked.s.history, Action::Commit(ended.s.current));
        let committed = ended.committed();
        lemma_neutral(
            committed.s.history,
            Action::Create(CommandBuffer { id: committed.s.next_id }),
        );
    }
}

/// Asking for an encoder, of either kind, keeps a scheduler sound: encoders run one at a time, and
/// each waits for the fence of the one that was begun before it, over command buffers too.
pub proof fn law_encoders_are_chained(w: World)
    requires
        is_sound(w.s),
        w.s.blit is None,
    ensures
        is_sound(w.compute_asked().s),
        is_sound(w.blit_asked().s),
{
    let c = World {
        s: Schedule {
            count: if w.s.count == usize::MAX {
                0
            } else {
                (w.s.count + 1) as usize
            },
            ..w.s
        },
        ..w
    };
    law_handing_over_is_sound(c, 1);
    let (counted, end) = w.counted();
    if end is Done && counted.s.encoder is None {
        let enc = counted.next_compute();
        let made = Action::NewFence(enc.fence);
        lemma_neutral(counted.s.history, made);
        lemma_begin(
            counted.s.history.push(made),
            Action::BeginCompute { on: counted.s.current, compute: enc },
            counted.s.last_fence,
        );
    }
    if end is Done {
        lemma_ended(counted);
        let ended = counted.ended();
        let enc = ended.next_blit();
        let made = Action::NewFence(enc.fence);
        lemma_neutral(ended.s.history, made);
        lemma_begin(
            ended.s.history.push(made),
            Action::BeginBlit { on: ended.s.current, blit: enc },
            ended.s.last_fence,
        );
    }
}

/// Calls that neither begin nor end an encoder keep a scheduler sound.
pub proof fn law_recorded_calls_are_sound(w: World, calls: Seq<Action>)
    requires
        is_sound(w.s),
        all_neutral(calls),
    ensures
        is_sound(w.recorded(calls).s),
    decreases calls.len(),
{
    if calls.len() == 0 {
        assert(w.s.history + calls =~= w.s.history);
    } else {
        let rest = calls.drop_last();
        assert forall|i: int| 0 <= i < rest.len() implies is_neutral(#[trigger] rest[i]) by {
            assert(rest[i] == calls[i]);
        }
        law_recorded_calls_are_sound(w, rest);
        lemma_neutral(w.s.history + rest, calls.last());
        assert((w.s.history + rest).push(calls.last()) =~= w.s.history + calls);
    }
}

/// Ending a blit encoder keeps a scheduler sound, and its fence becomes what the next encoder waits
/// for.
pub proof fn law_ending_a_blit_is_sound(w: World, enc: BlitCommandEncoder, calls: Seq<Action>)
    requires
        is_sound(w.s),
        w.s.blit == Some(enc),
        all_neutral(calls),
    ensures
        is_sound(w.blit_ended(enc, calls).s),
        w.blit_ended(enc, calls).s.last_fence == Some(enc.fence),
{
    law_recorded_calls_are_sound(w, calls);
    let h = w.recorded(calls).s.history;
    let a = Action::UpdateFence { encoder: enc.id, fence: enc.fence };
    lemma_neutral(h, a);
    lemma_end(h.push(a), enc.id);
}

/// A flush never takes away the fence that the next encoder waits for: it is that of the encoder
/// which the flush ended, or else the one from before.
pub proof fn law_flush_keeps_the_fence(w: World)
    ensures
        w.flushed().0.s.last_fence == (match w.s.encoder {
            Some(enc) => if w.s.count > 0 {
                Some(enc.fence)
            } else {
                w.s.last_fence
            },
            None => w.s.last_fence,
        }),
{
}

/// Command buffers in flight are in the order in which they were handed over.
pub proof fn law_in_flight_in_order(w: World, reset_to: usize)
    requires
        w.swap(reset_to).1 is Done,
    ensures
        w.swap(reset_to).0.s.in_flight == w.s.in_flight.push(w.s.current),
        w.swap(reset_to).0.s.count == reset_to,
{
}

/// A scheduler that has asked nothing of the device is sound.
pub proof fn law_new_scheduler_is_sound(s: Schedule)
    requires
        s.history == Seq::<Action>::empty(),
        s.encoder is None,
        s.blit is None,
        s.last_fence is None,
    ensures
        is_sound(s),
{
}

/// The command buffer that an action begins an encoder on.
pub open spec fn placed_on(a: Action) -> Option<CommandBuffer> {
    match a {
        Action::BeginCompute { on, compute } => Some(on),
        Action::BeginBlit { on, blit } => Some(on),
        _ => None,
    }
}

/// No encoder was begun on a command buffer that was made after this one.
pub open spec fn is_covered_by(h: Seq<Action>, cb: CommandBuffer) -> bool {
    forall|i: int|
        0 <= i < h.len() ==> (placed_on(#[trigger] h[i]) matches Some(on) ==> on.id <= cb.id)
}

/// Command buffers are made one after the other: the current one is the latest, those in flight were
/// made before it and are in the order in which they were made, and every encoder was begun on one
/// that was current.
pub open spec fn is_placed(s: Schedule) -> bool {
    &&& s.current.id < s.next_id
    &&& is_covered_by(s.history, s.current)
    &&& forall|i: int| 0 <= i < s.in_flight.len() ==> (#[trigger] s.in_flight[i]).id < s.current.id
    &&& forall|i: int, j: int|
        0 <= i < j < s.in_flight.len() ==> (#[trigger] s.in_flight[i]).id < (
        #[trigger] s.in_flight[j]).id
}

/// One action more is covered as long as it begins no encoder on a later command buffer.
proof fn lemma_covered(h: Seq<Action>, a: Action, cb: CommandBuffer)
    requires
        is_covered_by(h, cb),
        placed_on(a) matches Some(on) ==> on.id <= cb.id,
    ensures
        is_covered_by(h.push(a), cb),
{
    let g = h.push(a);
    assert forall|i: int| 0 <= i < g.len() implies (placed_on(#[trigger] g[i]) matches Some(on)
        ==> on.id <= cb.id) by {
        if i < h.len() {
            assert(g[i] == h[i]);
        }
    }
}

/// Ending the open compute encoder begins none.
proof fn lemma_ended_covered(w: World, cb: CommandBuffer)
    requires
        is_covered_by(w.s.history, cb),
    ensures
        is_covered_by(w.ended().s.history, cb),
{
    if let Some(enc) = w.s.encoder {
        let a = Action::UpdateFence { encoder: enc.id, fence: enc.fence };
        lemma_covered(w.s.history, a, cb);
        lemma_covered(w.s.history.push(a), Action::EndEncoding { encoder: enc.id }, cb);
    }
}

/// Handing over the current command buffer puts it behind everything that is in flight, and every
/// encoder so far was begun on it or on one that was made before it. The device runs command buffers
/// in order, so when this one is done, all that was encoded up to here is.
pub proof fn law_handle_covers_everything(w: World, reset_to: usize)
    requires
        is_placed(w.s),
        w.s.next_id < u64::MAX,
    ensures
        is_placed(w.swap(reset_to).0.s),
        is_covered_by(w.swap(reset_to).0.s.history, w.s.current),
        w.swap(reset_to).1 is Done ==> w.swap(reset_to).0.s.in_flight.last() == w.s.current,
{
    let cb = w.s.current;
    lemma_ended_covered(w, cb);
    let ended = w.ended();
    lemma_covered(ended.s.history, Action::AskStatus(cb), cb);
    if ended.io.statuses.len() > 0 {
        let asked = ended.asked_status(cb);
        lemma_covered(asked.s.history, Action::Commit(cb), cb);
        let committed = ended.committed();
        lemma_covered(
            committed.s.history,
            Action::Create(CommandBuffer { id: committed.s.next_id }),
            cb,
        );
        let (after, end) = w.swap(reset_to);
        if end is Done {
            assert(is_covered_by(after.s.history, after.s.current));
        }
    }
}

/// Asking for an encoder begins it on the current command buffer.
pub proof fn law_encoders_are_placed(w: World)
    requires
        is_placed(w.s),
        w.s.next_id <= u64::MAX - 3,
    ensures
        is_placed(w.compute_asked().s),
        is_placed(w.blit_asked().s),
{
    let c = World {
        s: Schedule {
            count: if w.s.count == usize::MAX {
                0
            } else {
                (w.s.count + 1) as usize
            },
            ..w.s
        },
        ..w
    };
    law_handle_covers_everything(c, 1);
    let (counted, end) = w.counted();
    let cb = counted.s.current;
    if end is Done {
        let enc = counted.next_compute();
        let made = Action::NewFence(enc.fence);
        let begin = Action::BeginCompute { on: cb, compute: enc };
        lemma_covered(counted.s.history, made, cb);
        lemma_covered(counted.s.history.push(made), begin, cb);
        if let Some(fence) = counted.s.last_fence {
            lemma_covered(
                counted.s.history.push(made).push(begin),
                Action::WaitForFence { encoder: enc.id, fence },
                cb,
            );
        }
        lemma_ended_covered(counted, cb);
        let ended = counted.ended();
        let enc = ended.next_blit();
        let made = Action::NewFence(enc.fence);
        let begin = Action::BeginBlit { on: cb, blit: enc };
        lemma_covered(ended.s.history, made, cb);
        lemma_covered(ended.s.history.push(made), begin, cb);
        if let Some(fence) = ended.s.last_fence {
            lemma_covered(
                ended.s.history.push(made).push(begin),
                Action::WaitForFence { encoder: enc.id, fence },
                cb,
            );
        }
    }
}

/// A scheduler that has just been made has its command buffers in order.
pub proof fn law_new_scheduler_is_placed(s: Schedule)
    requires
        s.history == Seq::<Action>::empty(),
        s.in_flight == Seq::<CommandBuffer>::empty(),
        s.current.id < s.next_id,
    ensures
        is_placed(s),
{
}

/// Calls that begin no encoder leave the command buffers in order.
pub proof fn law_recorded_calls_are_placed(w: World, calls: Seq<Action>)
    requires
        is_placed(w.s),
        all_neutral(calls),
    ensures
        is_placed(w.recorded(calls).s),
{
    let h = w.s.history;
    let g = h + calls;
    let cb = w.s.current;
    assert forall|i: int| 0 <= i < g.len() implies (placed_on(#[trigger] g[i]) matches Some(on)
        ==> on.id <= cb.id) by {
        if i < h.len() {
            assert(g[i] == h[i]);
        } else {
            assert(g[i] == calls[i - h.len()]);
            assert(is_neutral(calls[i - h.len()]));
        }
    }
}

/// Ending a blit encoder leaves the command buffers in order.
pub proof fn law_ending_a_blit_is_placed(w: World, enc: BlitCommandEncoder, calls: Seq<Action>)
    requires
        is_placed(w.s),
        all_neutral(calls),
    ensures
        is_placed(w.blit_ended(enc, calls).s),
{
    law_recorded_calls_are_placed(w, calls);
    let h = w.recorded(calls).s.history;
    let cb = w.s.current;
    let a = Action::UpdateFence { encoder: enc.id, fence: enc.fence };
    lemma_covered(h, a, cb);
    lemma_covered(h.push(a), Action::EndEncoding { encoder: enc.id }, cb);
}

/// Command buffers that are in order, with names from `from` on and below `to`.
spec fn is_ordered(cbs: Seq<CommandBuffer>, from: int, to: int) -> bool {
    &&& forall|i: int| 0 <= i < cbs.len() ==> from <= (#[trigger] cbs[i]).id < to
    &&& forall|i: int, j: int|
        0 <= i < j < cbs.len() ==> (#[trigger] cbs[i]).id < (#[trigger] cbs[j]).id
}

/// Those that are not done stay in order.
proof fn lemma_unfinished(
    statuses: Seq<MTLCommandBufferStatus>,
    cbs: Seq<CommandBuffer>,
    from: int,
    to: int,
)
    requires
        is_ordered(cbs, from, to),
    ensures
        is_ordered(crate::metal::commands::unfinished(statuses, cbs), from, to),
    decreases cbs.len(),
{
    if cbs.len() > 0 {
        let left = cbs.drop_first();
        let next = cbs[0].id + 1;
        assert forall|i: int| 0 <= i < left.len() implies next <= (#[trigger] left[i]).id < to by {
            assert(left[i] == cbs[i + 1]);
            assert(cbs[0].id < cbs[i + 1].id);
        }
        assert forall|i: int, j: int| 0 <= i < j < left.len() implies (#[trigger] left[i]).id < (
        #[trigger] left[j]).id by {
            assert(cbs[i + 1].id < cbs[j + 1].id);
        }
        lemma_unfinished(statuses.drop_first(), left, next, to);
        let rest = crate::metal::commands::unfinished(statuses.drop_first(), left);
        let all = seq![cbs[0]] + rest;
        assert(forall|i: int| 0 < i < all.len() ==> #[trigger] all[i] == rest[i - 1]);
    }
}

/// Taking what is in flight, and forgetting of it what is done, keeps a scheduler sound and leaves
/// its command buffers in order.
pub proof fn law_taking_and_forgetting(s: Schedule, statuses: Seq<MTLCommandBufferStatus>)
    requires
        is_sound(s),
        is_placed(s),
    ensures
        ({
            let taken = Schedule { in_flight: Seq::empty(), ..s };
            let forgot = Schedule {
                in_flight: crate::metal::commands::unfinished(statuses, s.in_flight),
                ..s
            };
            &&& is_sound(taken)
            &&& is_placed(taken)
            &&& is_sound(forgot)
            &&& is_placed(forgot)
        }),
{
    assert(is_ordered(s.in_flight, 0, s.current.id as int));
    lemma_unfinished(statuses, s.in_flight, 0, s.current.id as int);
}

/// What can be asked of a scheduler. Calls are those recorded on the encoder.
pub ghost enum Request {
    Compute,
    Release(Seq<Action>),
    Blit,
    EndBlit(Seq<Action>),
    Flush,
    FlushAndTake,
    HandOver,
    ForgetCompleted,
}

/// A request, and what the device has answered by then.
pub ghost struct Step {
    pub request: Request,
    pub io: ExchangeView,
}

impl Step {
    /// Whether an encoder is asked for.
    pub open spec fn asks(self) -> bool {
        self.request is Compute || self.request is Blit
    }

    /// When a request can be made: names are left, and the queue is held for no one else.
    pub open spec fn is_possible(self, s: Schedule) -> bool {
        match self.request {
            Request::Release(calls) => s.encoder is Some && s.blit is None && all_neutral(calls),
            Request::EndBlit(calls) => s.blit is Some && all_neutral(calls),
            Request::ForgetCompleted => true,
            _ => s.blit is None && s.next_id <= u64::MAX - 3,
        }
    }

    /// The scheduler after a request.
    pub open spec fn after(self, s: Schedule) -> Schedule {
        let w = World { s, io: self.io };
        match self.request {
            Request::Compute => w.compute_asked().s,
            Request::Release(calls) => w.recorded(calls).s,
            Request::Blit => w.blit_asked().s,
            Request::EndBlit(calls) => w.blit_ended(s.blit->Some_0, calls).s,
            Request::Flush => w.flushed().0.s,
            Request::FlushAndTake => {
                let (flushed, end) = w.flushed();
                if end is Done {
                    Schedule { in_flight: Seq::empty(), ..flushed.s }
                } else {
                    flushed.s
                }
            },
            Request::HandOver => w.swap(0).0.s,
            Request::ForgetCompleted => if self.io.statuses.len() >= s.in_flight.len() {
                Schedule {
                    in_flight: crate::metal::commands::unfinished(self.io.statuses, s.in_flight),
                    ..s
                }
            } else {
                s
            },
        }
    }

    /// How many encoder requests the current command buffer has served after this one, given how
    /// many it had served before.
    pub open spec fn served(self, s: Schedule, before: nat) -> nat {
        let kept = if self.after(s).current == s.current {
            before
        } else {
            0
        };
        if self.asks() && (World { s, io: self.io }).counted().1 is Done {
            kept + 1
        } else {
            kept
        }
    }
}

/// The scheduler after a series of requests, and how many encoder requests its current command
/// buffer has served since it became current.
pub open spec fn ran(s: Schedule, steps: Seq<Step>) -> (Schedule, nat)
    decreases steps.len(),
{
    if steps.len() == 0 {
        (s, 0)
    } else {
        let (t, n) = ran(s, steps.drop_last());
        (steps.last().after(t), steps.last().served(t, n))
    }
}

/// Each request of a series can be made when its turn comes.
pub open spec fn can_run(s: Schedule, steps: Seq<Step>) -> bool
    decreases steps.len(),
{
    steps.len() > 0 ==> can_run(s, steps.drop_last()) && steps.last().is_possible(
        ran(s, steps.drop_last()).0,
    )
}

/// The count of encoders asked for never comes to its end, at which it would start over.
pub open spec fn counts(s: Schedule, steps: Seq<Step>) -> bool
    decreases steps.len(),
{
    steps.len() > 0 ==> counts(s, steps.drop_last()) && ran(s, steps.drop_last()).0.count
        < usize::MAX
}

/// Whatever is asked of a scheduler, in whatever order, encoders run one at a time, each waits for
/// the one before it, and command buffers stay in the order in which they were made.
pub proof fn law_every_run_is_sound(s: Schedule, steps: Seq<Step>)
    requires
        is_sound(s),
        is_placed(s),
        can_run(s, steps),
    ensures
        is_sound(ran(s, steps).0),
        is_placed(ran(s, steps).0),
    decreases steps.len(),
{
    if steps.len() > 0 {
        law_every_run_is_sound(s, steps.drop_last());
        let t = ran(s, steps.drop_last()).0;
        let step = steps.last();
        let w = World { s: t, io: step.io };
        match step.request {
            Request::Compute | Request::Blit => {
                law_encoders_are_chained(w);
                law_encoders_are_placed(w);
            },
            Request::Release(calls) => {
                law_recorded_calls_are_sound(w, calls);
                law_recorded_calls_are_placed(w, calls);
            },
            Request::EndBlit(calls) => {
                law_ending_a_blit_is_sound(w, t.blit->Some_0, calls);
                law_ending_a_blit_is_placed(w, t.blit->Some_0, calls);
            },
            Request::Flush | Request::FlushAndTake | Request::HandOver => {
                law_handing_over_is_sound(w, 0);
                law_handle_covers_everything(w, 0);
                law_taking_and_forgetting(w.flushed().0.s, Seq::empty());
            },
            Request::ForgetCompleted => {
                law_taking_and_forgetting(t, step.io.statuses);
            },
        }
    }
}

/// No command buffer serves more encoder requests than the limit says, or more than one where the
/// limit is zero, whatever is asked in between, as long as the count of requests does not start over.
pub proof fn law_command_buffers_are_bounded(s: Schedule, steps: Seq<Step>)
    requires
        counts(s, steps),
        can_run(s, steps),
        is_sound(s),
        is_placed(s),
    ensures
        ran(s, steps).0.per_buffer == s.per_buffer,
        ran(s, steps).1 <= ran(s, steps).0.count,
        ran(s, steps).1 <= s.per_buffer || ran(s, steps).1 <= 1,
    decreases steps.len(),
{
    if steps.len() > 0 {
        let before = steps.drop_last();
        law_command_buffers_are_bounded(s, before);
        law_every_run_is_sound(s, before);
        let t = ran(s, before).0;
        assert(is_placed(t));
    }
}

/// How many statuses were asked for in a stretch of a log.
pub open spec fn statuses_asked(log: Seq<Action>, from: int, to: int) -> int
    decreases to - from,
{
    if to <= from {
        0
    } else if log[to - 1] is AskStatus {
        statuses_asked(log, from, to - 1) + 1
    } else {
        statuses_asked(log, from, to - 1)
    }
}

/// The status that the device gave to the question at place `k` of a log that goes on from `before`:
/// answers are taken in the order of the questions.
pub open spec fn status_given(before: ExchangeView, log: Seq<Action>, k: int) -> Option<
    MTLCommandBufferStatus,
> {
    let asked = statuses_asked(log, before.log.len() as int, k);
    if 0 <= asked < before.statuses.len() {
        Some(before.statuses[asked])
    } else {
        None
    }
}

/// The log was only written on.
pub open spec fn goes_on(before: ExchangeView, after: ExchangeView) -> bool {
    before.log.is_prefix_of(after.log)
}

/// Between two states of an exchange a command buffer was made sure to be done: the device said that
/// it was completed, or it was waited for after its status was asked.
pub open spec fn is_done(before: ExchangeView, after: ExchangeView, cb: CommandBuffer) -> bool {
    &&& goes_on(before, after)
    &&& exists|k: int|
        before.log.len() <= k < after.log.len() && #[trigger] after.log[k] == Action::AskStatus(cb)
            && (status_given(before, after.log, k) == Some(MTLCommandBufferStatus::Completed)
            || exists|j: int|
            k < j < after.log.len() && #[trigger] after.log[j] == Action::WaitUntilCompleted(cb))
}

/// What the log says is not changed by what is written behind it.
proof fn lemma_asked_in(log: Seq<Action>, more: Seq<Action>, from: int, to: int)
    requires
        log.is_prefix_of(more),
        0 <= from,
        to <= log.len(),
    ensures
        statuses_asked(log, from, to) == statuses_asked(more, from, to),
    decreases to - from,
{
    if to > from {
        lemma_asked_in(log, more, from, to - 1);
        assert(log[to - 1] == more[to - 1]);
    }
}

/// A command buffer that is done stays so.
pub proof fn lemma_stays_done(
    before: ExchangeView,
    mid: ExchangeView,
    after: ExchangeView,
    cb: CommandBuffer,
)
    requires
        is_done(before, mid, cb),
        goes_on(mid, after),
    ensures
        is_done(before, after, cb),
{
    let k = choose|k: int|
        before.log.len() <= k < mid.log.len() && #[trigger] mid.log[k] == Action::AskStatus(cb) && (
        status_given(before, mid.log, k) == Some(MTLCommandBufferStatus::Completed) || exists|j: int|
            k < j < mid.log.len() && #[trigger] mid.log[j] == Action::WaitUntilCompleted(cb));
    assert(after.log[k] == mid.log[k]);
    lemma_asked_in(mid.log, after.log, before.log.len() as int, k);
    if exists|j: int|
        k < j < mid.log.len() && #[trigger] mid.log[j] == Action::WaitUntilCompleted(cb) {
        let j = choose|j: int|
            k < j < mid.log.len() && #[trigger] mid.log[j] == Action::WaitUntilCompleted(cb);
        assert(after.log[j] == mid.log[j]);
    }
    assert(before.log.is_prefix_of(after.log)) by {
        assert(before.log =~= after.log.subrange(0, before.log.len() as int));
    }
}

/// Whoever waits for a command buffer and is not told of a failure finds it done: whichever of its
/// six states the device says it is in, the device said that it was completed, or it was waited for
/// after that. It is committed first exactly where it had not been, and a failed one is never taken
/// for done.
pub proof fn law_waiting_ends_with_the_buffer_done(io: ExchangeView, cb: CommandBuffer)
    ensures
        goes_on(io, completed(io, cb)),
        forall|r: Result<(), Stop>| #[trigger]
            is_completed(io, r) && r is Ok ==> is_done(io, completed(io, cb), cb),
        forall|r: Result<(), Stop>| #[trigger]
            is_completed(io, r) && r is Ok ==> io.statuses.len() > 0 && io.statuses[0]
                != MTLCommandBufferStatus::Error,
        io.statuses.len() > 0 ==> {
            let status = io.statuses[0];
            let written = completed(io, cb).log.skip(io.log.len() as int);
            &&& written.contains(Action::Commit(cb)) <==> (status
                == MTLCommandBufferStatus::NotEnqueued || status == MTLCommandBufferStatus::Enqueued)
            &&& written.contains(Action::WaitUntilCompleted(cb)) <==> (status
                != MTLCommandBufferStatus::Completed && status != MTLCommandBufferStatus::Error)
            &&& written.contains(Action::AskError(cb)) <==> status == MTLCommandBufferStatus::Error
        },
{
    let after = completed(io, cb);
    let n = io.log.len() as int;
    assert(io.log =~= after.log.subrange(0, n));
    assert(after.log[n] == Action::AskStatus(cb));
    assert(statuses_asked(after.log, n, n) == 0);
    let written = after.log.skip(n);
    assert(written[0] == after.log[n]);
    if io.statuses.len() > 0 {
        match io.statuses[0] {
            MTLCommandBufferStatus::NotEnqueued | MTLCommandBufferStatus::Enqueued => {
                assert(after.log[n + 1] == Action::Commit(cb));
                assert(after.log[n + 2] == Action::WaitUntilCompleted(cb));
                assert(written =~= seq![
                    Action::AskStatus(cb),
                    Action::Commit(cb),
                    Action::WaitUntilCompleted(cb),
                ]);
                assert(written[1] == Action::Commit(cb));
                assert(written[2] == Action::WaitUntilCompleted(cb));
            },
            MTLCommandBufferStatus::Committed | MTLCommandBufferStatus::Scheduled => {
                assert(after.log[n + 1] == Action::WaitUntilCompleted(cb));
                assert(written =~= seq![Action::AskStatus(cb), Action::WaitUntilCompleted(cb)]);
                assert(written[1] == Action::WaitUntilCompleted(cb));
            },
            MTLCommandBufferStatus::Completed => {
                assert(status_given(io, after.log, n) == Some(MTLCommandBufferStatus::Completed));
                assert(written =~= seq![Action::AskStatus(cb)]);
            },
            MTLCommandBufferStatus::Error => {
                assert(written =~= seq![Action::AskStatus(cb), Action::AskError(cb)]);
                assert(written[1] == Action::AskError(cb));
            },
        }
    }
}

/// Questions for the statuses of command buffers, in order.
pub open spec fn asks(cbs: Seq<CommandBuffer>) -> Seq<Action> {
    cbs.map_values(|cb: CommandBuffer| Action::AskStatus(cb))
}

/// Looking for failures only writes questions: those for the status of each command buffer in turn,
/// up to the first that failed; and it says that all is well exactly where none failed.
pub proof fn law_every_failure_is_seen(io: ExchangeView, cbs: Seq<CommandBuffer>)
    ensures
        goes_on(io, checked(io, cbs)),
        forall|r: Result<(), Stop>| #[trigger]
            is_checked(io, cbs, r) && r is Ok ==> {
                &&& cbs.len() <= io.statuses.len()
                &&& forall|i: int|
                    0 <= i < cbs.len() ==> #[trigger] io.statuses[i]
                        != MTLCommandBufferStatus::Error
                &&& checked(io, cbs).log == io.log + asks(cbs)
            },
        forall|i: int, r: Result<(), Stop>|
            #![trigger io.statuses[i], is_checked(io, cbs, r)]
            0 <= i < cbs.len() && i < io.statuses.len() && io.statuses[i]
                == MTLCommandBufferStatus::Error && (forall|j: int|
                0 <= j < i ==> io.statuses[j] != MTLCommandBufferStatus::Error)
                && io.errors.len() > 0 && is_checked(io, cbs, r) ==> {
                &&& is_failure(r, failure_text(io.errors[0]))
                &&& checked(io, cbs).log.last() == Action::AskError(cbs[i])
            },
    decreases cbs.len(),
{
    let after = checked(io, cbs);
    if cbs.len() == 0 {
        assert(io.log + asks(cbs) =~= io.log);
        assert(io.log =~= io.log.subrange(0, io.log.len() as int));
    } else if io.statuses.len() == 0 {
        assert(io.log =~= after.log.subrange(0, io.log.len() as int));
    } else if io.statuses[0] != MTLCommandBufferStatus::Error {
        let asked = io.asked_status(cbs[0]);
        let rest = cbs.drop_first();
        law_every_failure_is_seen(asked, rest);
        assert(io.log =~= after.log.subrange(0, io.log.len() as int)) by {
            assert(asked.log == after.log.subrange(0, asked.log.len() as int));
            assert forall|i: int| 0 <= i < io.log.len() implies io.log[i] == after.log[i] by {
                assert(asked.log[i] == after.log[i]);
            }
        }
        assert(asked.log + asks(rest) =~= io.log + asks(cbs));
        assert forall|r: Result<(), Stop>| #[trigger]
            is_checked(io, cbs, r) && r is Ok implies cbs.len() <= io.statuses.len() && after.log
            == io.log + asks(cbs) && forall|i: int|
            0 <= i < cbs.len() ==> #[trigger] io.statuses[i] != MTLCommandBufferStatus::Error by {
            assert(is_checked(asked, rest, r));
            assert(rest.len() <= asked.statuses.len());
            assert(after == checked(asked, rest));
            assert forall|i: int| 0 <= i < cbs.len() implies #[trigger] io.statuses[i]
                != MTLCommandBufferStatus::Error by {
                if i > 0 {
                    assert(asked.statuses[i - 1] == io.statuses[i]);
                }
            }
        }
        assert forall|i: int, r: Result<(), Stop>|
            #![trigger io.statuses[i], is_checked(io, cbs, r)]
            0 <= i < cbs.len() && i < io.statuses.len() && io.statuses[i]
                == MTLCommandBufferStatus::Error && (forall|j: int|
                0 <= j < i ==> io.statuses[j] != MTLCommandBufferStatus::Error)
                && io.errors.len() > 0 && is_checked(io, cbs, r) implies is_failure(
            r,
            failure_text(io.errors[0]),
        ) && checked(io, cbs).log.last() == Action::AskError(cbs[i]) by {
            assert(is_checked(asked, rest, r));
            assert(asked.statuses[i - 1] == io.statuses[i]);
            assert forall|j: int| 0 <= j < i - 1 implies asked.statuses[j]
                != MTLCommandBufferStatus::Error by {
                assert(asked.statuses[j] == io.statuses[j + 1]);
            }
            assert(rest[i - 1] == cbs[i]);
        }
    } else {
        assert(io.log =~= after.log.subrange(0, io.log.len() as int));
    }
}

/// Waiting for command buffers that were handed over in order: where no failure is reported, the last
/// of them is done, and the device said of each earlier one that it had not failed.
pub proof fn law_waiting_for_all(io: ExchangeView, cbs: Seq<CommandBuffer>)
    requires
        cbs.len() > 0,
    ensures
        ({
            let waited = completed(io, cbs.last());
            forall|r: Result<(), Stop>| #[trigger]
                is_checked(waited, cbs.drop_last(), r) && r is Ok && completes(io) ==> is_done(
                    io,
                    checked(waited, cbs.drop_last()),
                    cbs.last(),
                )
        }),
        forall|r: Result<(), Stop>| #[trigger]
            is_completed(io, r) && !completes(io) ==> r is Err,
{
    let cb = cbs.last();
    let waited = completed(io, cb);
    law_waiting_ends_with_the_buffer_done(io, cb);
    law_every_failure_is_seen(waited, cbs.drop_last());
    if completes(io) {
        assert(is_completed(io, Ok::<(), Stop>(())));
        lemma_stays_done(io, waited, checked(waited, cbs.drop_last()), cb);
    }
}

/// Keeping what is not done asks for the status of each command buffer in turn.
pub proof fn lemma_sifted(io: ExchangeView, cbs: Seq<CommandBuffer>)
    ensures
        goes_on(io, sifted(io, cbs)),
        io.statuses.len() >= cbs.len() ==> sifted(io, cbs).log == io.log + asks(cbs),
    decreases cbs.len(),
{
    let after = sifted(io, cbs);
    if cbs.len() == 0 {
        assert(io.log + asks(cbs) =~= io.log);
        assert(io.log =~= io.log.subrange(0, io.log.len() as int));
    } else if io.statuses.len() == 0 {
        assert(io.log =~= after.log.subrange(0, io.log.len() as int));
    } else {
        let asked = io.asked_status(cbs[0]);
        let rest = cbs.drop_first();
        lemma_sifted(asked, rest);
        assert(io.log =~= after.log.subrange(0, io.log.len() as int)) by {
            assert(asked.log == after.log.subrange(0, asked.log.len() as int));
            assert forall|i: int| 0 <= i < io.log.len() implies io.log[i] == after.log[i] by {
                assert(asked.log[i] == after.log[i]);
            }
        }
        assert(asked.log + asks(rest) =~= io.log + asks(cbs));
    }
}

/// Exactly the command buffers that the device did not call completed are kept: each of those is, as
/// often as it stands there, and nothing else.
pub proof fn law_only_completed_buffers_are_forgotten(
    statuses: Seq<MTLCommandBufferStatus>,
    cbs: Seq<CommandBuffer>,
    cb: CommandBuffer,
)
    requires
        cbs.len() <= statuses.len(),
        cbs.no_duplicates(),
    ensures
        unfinished(statuses, cbs).contains(cb) <==> exists|i: int|
            0 <= i < cbs.len() && #[trigger] cbs[i] == cb && statuses[i]
                != MTLCommandBufferStatus::Completed,
        unfinished(statuses, cbs).no_duplicates(),
    decreases cbs.len(),
{
    if cbs.len() > 0 {
        let (rest, left) = (cbs.drop_first(), statuses.drop_first());
        assert(rest.no_duplicates()) by {
            assert forall|i: int, j: int| 0 <= i < rest.len() && 0 <= j < rest.len() && i != j implies
                rest[i] != rest[j] by {
                assert(cbs[i + 1] != cbs[j + 1]);
            }
        }
        law_only_completed_buffers_are_forgotten(left, rest, cb);
        law_only_completed_buffers_are_forgotten(left, rest, cbs[0]);
        let kept = unfinished(left, rest);
        let all = unfinished(statuses, cbs);
        assert forall|i: int| 0 <= i < rest.len() implies #[trigger] rest[i] == cbs[i + 1]
            && left[i] == statuses[i + 1] by {}
        if kept.contains(cb) {
            let i = choose|i: int|
                0 <= i < rest.len() && #[trigger] rest[i] == cb && left[i]
                    != MTLCommandBufferStatus::Completed;
            assert(cbs[i + 1] == cb);
            let k = choose|k: int| 0 <= k < kept.len() && kept[k] == cb;
            if statuses[0] != MTLCommandBufferStatus::Completed {
                assert(all[k + 1] == cb);
            }
        }
        if exists|i: int|
            0 <= i < cbs.len() && #[trigger] cbs[i] == cb && statuses[i]
                != MTLCommandBufferStatus::Completed {
            let i = choose|i: int|
                0 <= i < cbs.len() && #[trigger] cbs[i] == cb && statuses[i]
                    != MTLCommandBufferStatus::Completed;
            if i > 0 {
                assert(rest[i - 1] == cb);
                assert(left[i - 1] == statuses[i]);
                assert(kept.contains(cb));
                let k = choose|k: int| 0 <= k < kept.len() && kept[k] == cb;
                if statuses[0] != MTLCommandBufferStatus::Completed {
                    assert(all[k + 1] == cb);
                }
            } else {
                assert(all[0] == cb);
            }
        }
        if all.contains(cb) && !kept.contains(cb) {
            let k = choose|k: int| 0 <= k < all.len() && all[k] == cb;
            if k > 0 && statuses[0] != MTLCommandBufferStatus::Completed {
                assert(kept[k - 1] == cb);
            }
            assert(cbs[0] == cb);
        }
        assert(!kept.contains(cbs[0])) by {
            if kept.contains(cbs[0]) {
                let i = choose|i: int|
                    0 <= i < rest.len() && #[trigger] rest[i] == cbs[0] && left[i]
                        != MTLCommandBufferStatus::Completed;
                assert(cbs[i + 1] == cbs[0]);
            }
        }
        assert(all.no_duplicates()) by {
            if statuses[0] != MTLCommandBufferStatus::Completed {
                assert forall|i: int, j: int|
                    0 <= i < all.len() && 0 <= j < all.len() && i != j implies all[i] != all[j] by {
                    if i > 0 {
                        assert(all[i] == kept[i - 1]);
                        assert(kept.contains(kept[i - 1]));
                    }
                    if j > 0 {
                        assert(all[j] == kept[j - 1]);
                        assert(kept.contains(kept[j - 1]));
                    }
                }
            }
        }
    }
}

/// Below the limit no command buffer is handed over, and nothing is asked of the device: the current
/// one takes the next encoder. At the limit it is handed over.
pub proof fn law_command_buffers_are_filled(w: World)
    ensures
        w.s.count < w.s.per_buffer ==> {
            &&& w.counted().1 is Done
            &&& w.counted().0.s.current == w.s.current
            &&& w.counted().0.s.in_flight == w.s.in_flight
            &&& w.counted().0.io == w.io
            &&& w.counted().0.s.count == w.s.count + 1
            &&& w.counted().0.s.encoder == w.s.encoder
        },
        w.s.count >= w.s.per_buffer && w.counted().1 is Done ==> {
            &&& w.counted().0.s.in_flight == w.s.in_flight.push(w.s.current)
            &&& w.counted().0.s.current != w.s.current || w.s.next_id == w.s.current.id
            &&& w.counted().0.s.count == 1
            &&& w.counted().0.s.encoder is None
        },
{
}

/// A command buffer is handed over committed: either the device said that it had been, or it was
/// committed after its status was asked. It is never committed twice.
pub proof fn law_handed_over_is_committed(w: World, reset_to: usize)
    ensures
        w.swap(reset_to).1 is Done ==> {
            let status = w.ended().io.statuses[0];
            let written = w.swap(reset_to).0.io.log.skip(w.ended().io.log.len() as int);
            let was_open = status == MTLCommandBufferStatus::NotEnqueued || status
                == MTLCommandBufferStatus::Enqueued;
            &&& w.ended().io.statuses == w.io.statuses
            &&& written == (if was_open {
                seq![
                    Action::AskStatus(w.s.current),
                    Action::Commit(w.s.current),
                    Action::Create(w.swap(reset_to).0.s.current),
                ]
            } else {
                seq![
                    Action::AskStatus(w.s.current),
                    Action::Create(w.swap(reset_to).0.s.current),
                ]
            })
        },
{
    if w.swap(reset_to).1 is Done {
        let status = w.ended().io.statuses[0];
        let written = w.swap(reset_to).0.io.log.skip(w.ended().io.log.len() as int);
        if status == MTLCommandBufferStatus::NotEnqueued || status
            == MTLCommandBufferStatus::Enqueued {
            assert(written =~= seq![
                Action::AskStatus(w.s.current),
                Action::Commit(w.s.current),
                Action::Create(w.swap(reset_to).0.s.current),
            ]);
        } else {
            assert(written =~= seq![
                Action::AskStatus(w.s.current),
                Action::Create(w.swap(reset_to).0.s.current),
            ]);
        }
    }
}

/// What is asked of the device to encode work and what stands in the exchange are the same: a request
/// writes to both, or to neither.
pub proof fn law_history_is_what_was_written(w: World, reset_to: usize, calls: Seq<Action>)
    ensures
        forall|a: Action|
            (#[trigger] w.act(a)).s.history == w.s.history.push(a) && w.act(a).io.log
                == w.io.log.push(a),
        w.recorded(calls).s.history == w.s.history + calls,
        w.recorded(calls).io.log == w.io.log + calls,
        w.swap(reset_to).0.s.history.skip(w.s.history.len() as int) == w.swap(
            reset_to,
        ).0.io.log.skip(w.io.log.len() as int),
{
    let (a, b) = (w.s.history.len() as int, w.io.log.len() as int);
    assert(w.swap(reset_to).0.s.history.skip(a) =~= w.swap(reset_to).0.io.log.skip(b));
}

/// An encoder ends with the signal of its own fence: right before an encoder ends, the fence that it
/// was begun with is updated on it.
pub open spec fn is_signalled(h: Seq<Action>) -> bool {
    forall|i: int|
        #![trigger h[i]]
        0 <= i < h.len() && h[i] is EndEncoding ==> i > 0 && open_encoder(h.take(i)) is Some && h[i]
            == (Action::EndEncoding { encoder: open_encoder(h.take(i))->Some_0 }) && h[i - 1] == (
        Action::UpdateFence {
            encoder: open_encoder(h.take(i))->Some_0,
            fence: last_begun(h.take(i))->Some_0,
        })
}

/// One action more that ends no encoder.
proof fn lemma_signalled_more(h: Seq<Action>, a: Action)
    requires
        is_signalled(h),
        !(a is EndEncoding),
    ensures
        is_signalled(h.push(a)),
{
    let g = h.push(a);
    assert forall|i: int|
        #![trigger g[i]]
        0 <= i < g.len() && g[i] is EndEncoding implies i > 0 && open_encoder(g.take(i)) is Some
        && g[i] == (Action::EndEncoding { encoder: open_encoder(g.take(i))->Some_0 }) && g[i - 1]
        == (Action::UpdateFence {
        encoder: open_encoder(g.take(i))->Some_0,
        fence: last_begun(g.take(i))->Some_0,
    }) by {
        assert(i < h.len());
        assert(g[i] == h[i]);
        assert(g.take(i) =~= h.take(i));
    }
}

/// The fence of the open encoder is updated, and the encoder ends.
proof fn lemma_signalled_end(h: Seq<Action>, encoder: u64, fence: Fence)
    requires
        is_signalled(h),
        open_encoder(h) == Some(encoder),
        last_begun(h) == Some(fence),
    ensures
        is_signalled(
            h.push(Action::UpdateFence { encoder, fence }).push(Action::EndEncoding { encoder }),
        ),
{
    let a = Action::UpdateFence { encoder, fence };
    let mid = h.push(a);
    let g = mid.push(Action::EndEncoding { encoder });
    lemma_neutral(h, a);
    lemma_signalled_more(h, a);
    assert forall|i: int|
        #![trigger g[i]]
        0 <= i < g.len() && g[i] is EndEncoding implies i > 0 && open_encoder(g.take(i)) is Some
        && g[i] == (Action::EndEncoding { encoder: open_encoder(g.take(i))->Some_0 }) && g[i - 1]
        == (Action::UpdateFence {
        encoder: open_encoder(g.take(i))->Some_0,
        fence: last_begun(g.take(i))->Some_0,
    }) by {
        if i < mid.len() {
            assert(g[i] == mid[i]);
            assert(g.take(i) =~= mid.take(i));
        } else {
            assert(g.take(i) =~= mid);
        }
    }
}

/// Calls that end no encoder.
proof fn lemma_signalled_calls(h: Seq<Action>, calls: Seq<Action>)
    requires
        is_signalled(h),
        all_neutral(calls),
    ensures
        is_signalled(h + calls),
    decreases calls.len(),
{
    if calls.len() == 0 {
        assert(h + calls =~= h);
    } else {
        let rest = calls.drop_last();
        assert forall|i: int| 0 <= i < rest.len() implies is_neutral(#[trigger] rest[i]) by {
            assert(rest[i] == calls[i]);
        }
        lemma_signalled_calls(h, rest);
        lemma_signalled_more(h + rest, calls.last());
        assert((h + rest).push(calls.last()) =~= h + calls);
    }
}

/// Handing over a command buffer ends the open encoder with its signal.
proof fn lemma_signalled_swap(w: World, reset_to: usize)
    requires
        is_sound(w.s),
        w.s.blit is None,
        is_signalled(w.s.history),
    ensures
        is_signalled(w.ended().s.history),
        is_signalled(w.swap(reset_to).0.s.history),
{
    if let Some(enc) = w.s.encoder {
        lemma_signalled_end(w.s.history, enc.id, enc.fence);
    }
    let ended = w.ended();
    lemma_signalled_more(ended.s.history, Action::AskStatus(ended.s.current));
    if ended.io.statuses.len() > 0 {
        let asked = ended.asked_status(ended.s.current);
        lemma_signalled_more(asked.s.history, Action::Commit(ended.s.current));
        let committed = ended.committed();
        lemma_signalled_more(
            committed.s.history,
            Action::Create(CommandBuffer { id: committed.s.next_id }),
        );
    }
}

/// Every encoder ends with the signal of the fence that it was begun with, and with nothing in
/// between: whatever is asked of a scheduler keeps that.
pub proof fn law_encoders_signal_their_fence(s: Schedule, step: Step)
    requires
        is_sound(s),
        is_signalled(s.history),
        step.is_possible(s),
    ensures
        is_signalled(step.after(s).history),
{
    let w = World { s, io: step.io };
    match step.request {
        Request::Release(calls) => {
            lemma_signalled_calls(s.history, calls);
        },
        Request::EndBlit(calls) => {
            let enc = s.blit->Some_0;
            lemma_signalled_calls(s.history, calls);
            law_recorded_calls_are_sound(w, calls);
            lemma_signalled_end(s.history + calls, enc.id, enc.fence);
        },
        Request::Flush | Request::FlushAndTake | Request::HandOver => {
            lemma_signalled_swap(w, 0);
        },
        Request::ForgetCompleted => {},
        Request::Compute | Request::Blit => {
            let c = World {
                s: Schedule {
                    count: if s.count == usize::MAX {
                        0
                    } else {
                        (s.count + 1) as usize
                    },
                    ..s
                },
                ..w
            };
            lemma_signalled_swap(c, 1);
            law_handing_over_is_sound(c, 1);
            let (counted, end) = w.counted();
            if end is Done {
                lemma_signalled_swap(counted, 0);
                let enc = counted.next_compute();
                let made = Action::NewFence(enc.fence);
                let begin = Action::BeginCompute { on: counted.s.current, compute: enc };
                lemma_signalled_more(counted.s.history, made);
                lemma_signalled_more(counted.s.history.push(made), begin);
                if let Some(fence) = counted.s.last_fence {
                    lemma_signalled_more(
                        counted.s.history.push(made).push(begin),
                        Action::WaitForFence { encoder: enc.id, fence },
                    );
                }
                let ended = counted.ended();
                let blit = ended.next_blit();
                let made = Action::NewFence(blit.fence);
                let begin = Action::BeginBlit { on: ended.s.current, blit };
                lemma_signalled_more(ended.s.history, made);
                lemma_signalled_more(ended.s.history.push(made), begin);
                if let Some(fence) = ended.s.last_fence {
                    lemma_signalled_more(
                        ended.s.history.push(made).push(begin),
                        Action::WaitForFence { encoder: blit.id, fence },
                    );
                }
            }
        },
    }
}

/// Every command buffer, fence and encoder that is made has a name of its own: an encoder that is
/// begun is not named like anything before it, nor is its fence.
pub proof fn law_names_are_fresh(w: World)
    requires
        w.s.next_id <= u64::MAX - 3,
    ensures
        w.compute_asked().s.next_id >= w.s.next_id,
        w.blit_asked().s.next_id >= w.s.next_id,
        w.counted().1 is Done && w.counted().0.s.encoder is None ==> {
            let enc = w.compute_asked().s.encoder->Some_0;
            &&& w.compute_asked().s.encoder is Some
            &&& w.s.next_id <= enc.id < w.compute_asked().s.next_id
            &&& w.s.next_id <= enc.fence.id < w.compute_asked().s.next_id
            &&& enc.id != enc.fence.id
            &&& enc.id != w.compute_asked().s.current.id || w.compute_asked().s.current
                == w.s.current
        },
        w.counted().1 is Done && w.counted().0.s.encoder is Some ==> w.compute_asked().s.encoder
            == w.counted().0.s.encoder,
        w.counted().1 is Done ==> {
            let enc = w.blit_asked().s.blit->Some_0;
            &&& w.blit_asked().s.blit is Some
            &&& w.s.next_id <= enc.id < w.blit_asked().s.next_id
            &&& w.s.next_id <= enc.fence.id < w.blit_asked().s.next_id
            &&& enc.id != enc.fence.id
            &&& w.blit_asked().s.encoder is None
        },
{
}

/// A digit is written as the character of its value.
proof fn lemma_digit_value(d: usize)
    requires
        d < 10,
    ensures
        names::digit(d).len() == 1,
        '0' <= names::digit(d)[0] <= '9',
        names::digit(d)[0] as nat - '0' as nat == d,
{
    reveal_strlit("0");
    reveal_strlit("1");
    reveal_strlit("2");
    reveal_strlit("3");
    reveal_strlit("4");
    reveal_strlit("5");
    reveal_strlit("6");
    reveal_strlit("7");
    reveal_strlit("8");
    reveal_strlit("9");
}

/// A number in digits has that value.
proof fn lemma_decimal_value(n: nat)
    ensures
        names::decimal(n).len() > 0,
        crate::metal::commands::all_digits(names::decimal(n)),
        digits_value(names::decimal(n)) == n,
    decreases n,
{
    if n < 10 {
        lemma_digit_value(n as usize);
        let d = names::decimal(n);
        assert(d.drop_last() =~= Seq::<char>::empty());
        assert(digits_value(d.drop_last()) == 0);
    } else {
        lemma_decimal_value(n / 10);
        lemma_digit_value((n % 10) as usize);
        let d = names::decimal(n);
        let head = names::decimal(n / 10);
        assert(d.drop_last() =~= head);
        assert forall|i: int| 0 <= i < d.len() implies '0' <= #[trigger] d[i] <= '9' by {
            if i < head.len() {
                assert(d[i] == head[i]);
            }
        }
    }
}

/// A setting that writes a number in digits, with or without a plus sign, limits the encoders of a
/// command buffer to that number; without a setting, or with one that does not begin with a digit or
/// a plus sign, the default holds.
pub proof fn law_setting_is_the_limit(n: usize, text: Seq<char>)
    ensures
        count_in(names::decimal(n as nat)) == Some(n),
        count_in(seq!['+'] + names::decimal(n as nat)) == Some(n),
        limit_of(Some(names::decimal(n as nat))) == n,
        limit_of(None) == DEFAULT_COMPUTE_PER_BUFFER,
        text.len() == 0 || !('0' <= text[0] <= '9' || text[0] == '+') ==> limit_of(Some(text))
            == DEFAULT_COMPUTE_PER_BUFFER,
        !('0' <= text.last() <= '9') ==> limit_of(Some(text)) == DEFAULT_COMPUTE_PER_BUFFER,
{
    lemma_decimal_value(n as nat);
    let d = names::decimal(n as nat);
    assert('0' <= d[0] <= '9');
    assert((seq!['+'] + d).drop_first() =~= d);
    if text.len() > 0 && !('0' <= text.last() <= '9') {
        if text[0] == '+' {
            if text.len() > 1 {
                let t = text.drop_first();
                assert(t[t.len() - 1] == text.last());
            }
        } else {
            assert(text[text.len() - 1] == text.last());
        }
    }
}

/// What is kept keeps its order: the command buffers that are kept of two lists, one behind the other,
/// are those that are kept of the first, then those of the second.
pub proof fn law_kept_buffers_stay_in_order(
    statuses: Seq<MTLCommandBufferStatus>,
    cbs: Seq<CommandBuffer>,
    k: int,
)
    requires
        0 <= k <= cbs.len() <= statuses.len(),
    ensures
        unfinished(statuses, cbs) == unfinished(statuses.take(k), cbs.take(k)) + unfinished(
            statuses.skip(k),
            cbs.skip(k),
        ),
    decreases k,
{
    if k == 0 {
        assert(cbs.skip(0) =~= cbs);
        assert(statuses.skip(0) =~= statuses);
        assert(unfinished(statuses.take(0), cbs.take(0)) =~= Seq::<CommandBuffer>::empty());
        assert(Seq::<CommandBuffer>::empty() + unfinished(statuses, cbs) =~= unfinished(
            statuses,
            cbs,
        ));
    } else {
        let (left, rest) = (statuses.drop_first(), cbs.drop_first());
        law_kept_buffers_stay_in_order(left, rest, k - 1);
        let (a, b) = (statuses.take(k), cbs.take(k));
        assert(a.drop_first() =~= left.take(k - 1));
        assert(b.drop_first() =~= rest.take(k - 1));
        assert(left.skip(k - 1) =~= statuses.skip(k));
        assert(rest.skip(k - 1) =~= cbs.skip(k));
        assert(a[0] == statuses[0] && b[0] == cbs[0]);
        assert(unfinished(statuses, cbs) =~= unfinished(a, b) + unfinished(
            statuses.skip(k),
            cbs.skip(k),
        ));
    }
}

/// Flushing hands over exactly what encoders were asked for: where any were since the last time, the
/// current command buffer goes behind those in flight and a new one takes its place; else nothing is
/// asked of the device. After it none is counted.
pub proof fn law_flushing_hands_over_what_was_asked(w: World)
    ensures
        w.s.count == 0 ==> w.flushed().1 is Done && w.flushed().0 == w,
        w.s.count > 0 && w.flushed().1 is Done ==> {
            &&& w.flushed().0.s.in_flight == w.s.in_flight.push(w.s.current)
            &&& w.flushed().0.s.current.id == w.s.next_id
            &&& w.flushed().0.s.encoder is None
        },
        w.flushed().1 is Done ==> w.flushed().0.s.count == 0,
        w.flushed().0.s.per_buffer == w.s.per_buffer,
{
}

/// Where the device makes no command buffer, or an answer is missing, the current one and those in
/// flight stay as they were, and so does the count.
pub proof fn law_a_stop_changes_no_buffers(w: World, reset_to: usize)
    ensures
        !(w.swap(reset_to).1 is Done) ==> {
            let after = w.swap(reset_to).0.s;
            &&& after.current == w.s.current
            &&& after.in_flight == w.s.in_flight
            &&& after.count == w.s.count
            &&& after.next_id == w.s.next_id
            &&& after.per_buffer == w.s.per_buffer
        },
        w.swap(reset_to).1 is Done ==> {
            let after = w.swap(reset_to).0.s;
            &&& after.in_flight == w.s.in_flight.push(w.s.current)
            &&& after.current.id == w.s.next_id
            &&& after.count == reset_to
            &&& after.next_id == w.s.next_id + 1 || w.s.next_id == u64::MAX
            &&& after.per_buffer == w.s.per_buffer
            &&& after.encoder is None
            &&& after.last_fence == (match w.s.encoder {
                Some(enc) => Some(enc.fence),
                None => w.s.last_fence,
            })
        },
        w.swap(reset_to).1 is NotCreated <==> {
            &&& w.io.statuses.len() > 0
            &&& w.io.created.len() > 0
            &&& !w.io.created[0]
        },
        w.swap(reset_to).1 is Done <==> {
            &&& w.io.statuses.len() > 0
            &&& w.io.created.len() > 0
            &&& w.io.created[0]
        },
{
}

/// Ending an encoder makes its fence the one that the next encoder waits for, whichever kind it is.
pub proof fn law_fences_are_passed_on(w: World, enc: BlitCommandEncoder, calls: Seq<Action>)
    ensures
        w.s.encoder matches Some(compute) ==> w.ended().s.last_fence == Some(compute.fence),
        w.s.encoder is None ==> w.ended() == w,
        w.ended().s.encoder is None,
        w.blit_ended(enc, calls).s.last_fence == Some(enc.fence),
        w.blit_ended(enc, calls).s.blit is None,
        w.blit_ended(enc, calls).s.history == w.s.history + calls + seq![
            Action::UpdateFence { encoder: enc.id, fence: enc.fence },
            Action::EndEncoding { encoder: enc.id },
        ],
{
    assert(w.blit_ended(enc, calls).s.history =~= w.s.history + calls + seq![
        Action::UpdateFence { encoder: enc.id, fence: enc.fence },
        Action::EndEncoding { encoder: enc.id },
    ]);
}

} // verus!
