//! Command buffers, encoders and fences of one command queue.
//!
//! Encoders are begun strictly one after the other. Each waits for the fence of the one before it,
//! which has waited for its own predecessor, so a single wait covers all earlier writes.
//!
//! The device is driven from outside: an operation writes what is to be done into an `Exchange`, in
//! order, and takes the device's answers from it. Where an answer is still missing the operation
//! stops; it is then run again, from the same state, with one answer more.

use crate::metal::exchange::{
    Action, BlitCommandEncoder, Buffer, CommandBuffer, ComputeCommandEncoder, ComputePipeline,
    Exchange, ExchangeView, Fence, MTLCommandBufferStatus, MetalKernelError, Stop,
};
use vstd::prelude::*;

verus! {

/// The number of encoders per command buffer unless the environment says otherwise.
pub const DEFAULT_COMPUTE_PER_BUFFER: usize = 50;

/// What is recorded on a compute encoder while the queue is held for it.
pub struct CommandsGuard {
    encoder: ComputeCommandEncoder,
    calls: Vec<Action>,
}

impl CommandsGuard {
    /// Only calls that neither begin nor end an encoder are recorded.
    pub open spec fn is_valid(&self) -> bool {
        crate::metal::laws::all_neutral(self.calls())
    }

    /// The encoder.
    pub closed spec fn encoder(&self) -> ComputeCommandEncoder {
        self.encoder
    }

    /// What was recorded, in order.
    pub closed spec fn calls(&self) -> Seq<Action> {
        self.calls@
    }

    /// The encoder.
    pub fn as_ref(&self) -> (r: &ComputeCommandEncoder)
        ensures
            *r == self.encoder(),
    {
        &self.encoder
    }

    /// Labels the encoder.
    pub fn set_label(&mut self, label: &str)
        requires
            old(self).is_valid(),
        ensures
            final(self).is_valid(),
            final(self).encoder() == old(self).encoder(),
            final(self).calls().len() == old(self).calls().len() + 1,
            final(self).calls().drop_last() == old(self).calls(),
            final(self).calls().last() matches Action::SetLabel { encoder, label: text } && encoder
                == old(self).encoder().id && text@ == label@,
    {
        self.calls.push(
            Action::SetLabel { encoder: self.encoder.id, label: String::from_str(label) },
        );
        assert(self.calls@.drop_last() =~= old(self).calls@);
    }

    /// Chooses the pipeline of the dispatches that follow.
    pub fn set_compute_pipeline_state(&mut self, pipeline: &ComputePipeline)
        requires
            old(self).is_valid(),
        ensures
            final(self).is_valid(),
            final(self).encoder() == old(self).encoder(),
            final(self).calls() == old(self).calls().push(
                Action::SetComputePipelineState {
                    encoder: old(self).encoder().id,
                    pipeline: *pipeline,
                },
            ),
    {
        self.calls.push(
            Action::SetComputePipelineState { encoder: self.encoder.id, pipeline: *pipeline },
        );
    }

    /// Opens a debug group; the returned guard closes it.
    #[must_use]
    pub fn debug_group(&mut self, label: &str) -> (r: DebugGroupGuard)
        requires
            old(self).is_valid(),
        ensures
            final(self).is_valid(),
            final(self).encoder() == old(self).encoder(),
            final(self).calls().len() == old(self).calls().len() + 1,
            final(self).calls().drop_last() == old(self).calls(),
            final(self).calls().last() matches Action::PushDebugGroup { encoder, label: text }
                && encoder == old(self).encoder().id && text@ == label@,
            r.encoder == old(self).encoder().id,
    {
        self.calls.push(
            Action::PushDebugGroup { encoder: self.encoder.id, label: String::from_str(label) },
        );
        assert(self.calls@.drop_last() =~= old(self).calls@);
        DebugGroupGuard { encoder: self.encoder.id }
    }

    /// Closes a debug group.
    pub fn end_debug_group(&mut self, group: DebugGroupGuard)
        requires
            old(self).is_valid(),
        ensures
            final(self).is_valid(),
            final(self).encoder() == old(self).encoder(),
            final(self).calls() == old(self).calls().push(
                Action::PopDebugGroup { encoder: group.encoder },
            ),
    {
        self.calls.push(Action::PopDebugGroup { encoder: group.encoder });
    }
}

/// A debug group that is still open.
pub struct DebugGroupGuard {
    pub encoder: u64,
}

/// What is recorded on a blit encoder while the queue is held for it.
pub struct BlitCommandsGuard {
    state: BlitCommandEncoder,
    calls: Vec<Action>,
}

impl BlitCommandsGuard {
    /// Only calls that neither begin nor end an encoder are recorded.
    pub open spec fn is_valid(&self) -> bool {
        crate::metal::laws::all_neutral(self.calls())
    }

    /// The encoder.
    pub closed spec fn encoder(&self) -> BlitCommandEncoder {
        self.state
    }

    /// What was recorded, in order.
    pub closed spec fn calls(&self) -> Seq<Action> {
        self.calls@
    }

    /// The encoder.
    pub fn as_ref(&self) -> (r: &BlitCommandEncoder)
        ensures
            *r == self.encoder(),
    {
        &self.state
    }

    /// Labels the encoder.
    pub fn set_label(&mut self, label: &str)
        requires
            old(self).is_valid(),
        ensures
            final(self).is_valid(),
            final(self).encoder() == old(self).encoder(),
            final(self).calls().len() == old(self).calls().len() + 1,
            final(self).calls().drop_last() == old(self).calls(),
            final(self).calls().last() matches Action::SetLabel { encoder, label: text } && encoder
                == old(self).encoder().id && text@ == label@,
    {
        self.calls.push(
            Action::SetLabel { encoder: self.state.id, label: String::from_str(label) },
        );
        assert(self.calls@.drop_last() =~= old(self).calls@);
    }

    /// Copies `size` bytes from one buffer to another.
    pub fn copy_from_buffer(
        &mut self,
        src_buffer: &Buffer,
        src_offset: usize,
        dst_buffer: &Buffer,
        dst_offset: usize,
        size: usize,
    )
        requires
            old(self).is_valid(),
        ensures
            final(self).is_valid(),
            final(self).encoder() == old(self).encoder(),
            final(self).calls() == old(self).calls().push(
                Action::CopyFromBuffer {
                    encoder: old(self).encoder().id,
                    src: *src_buffer,
                    src_offset,
                    dst: *dst_buffer,
                    dst_offset,
                    size,
                },
            ),
    {
        self.calls.push(
            Action::CopyFromBuffer {
                encoder: self.state.id,
                src: *src_buffer,
                src_offset,
                dst: *dst_buffer,
                dst_offset,
                size,
            },
        );
    }

    /// Fills a range of a buffer, start and length, with a byte.
    pub fn fill_buffer(&mut self, buffer: &Buffer, range: (usize, usize), value: u8)
        requires
            old(self).is_valid(),
        ensures
            final(self).is_valid(),
            final(self).encoder() == old(self).encoder(),
            final(self).calls() == old(self).calls().push(
                Action::FillBuffer {
                    encoder: old(self).encoder().id,
                    target: *buffer,
                    range,
                    value,
                },
            ),
    {
        self.calls.push(
            Action::FillBuffer { encoder: self.state.id, target: *buffer, range, value },
        );
    }
}

/// The buffer that is encoded into, those that were handed over, and the open compute encoder.
pub struct EntryState {
    pub current: CommandBuffer,
    pub in_flight: Vec<CommandBuffer>,
    pub current_encoder: Option<ComputeCommandEncoder>,
}

impl EntryState {
    /// Nothing was encoded or handed over yet.
    pub fn new(cb: CommandBuffer) -> (r: EntryState)
        ensures
            r.current == cb,
            r.in_flight@ == Seq::<CommandBuffer>::empty(),
            r.current_encoder is None,
    {
        EntryState { current: cb, in_flight: Vec::new(), current_encoder: None }
    }
}

/// What contracts see of the scheduler. `history` holds what was asked of the device, since the
/// scheduler was made, to encode work and to hand it over: fences, encoders and their calls, and the
/// command buffers that were asked for their status, committed and made in that course. What is
/// asked in order to wait for command buffers, or to forget those that are done, is not in it.
#[verifier::ext_equal]
pub ghost struct Schedule {
    pub current: CommandBuffer,
    pub in_flight: Seq<CommandBuffer>,
    pub encoder: Option<ComputeCommandEncoder>,
    pub blit: Option<BlitCommandEncoder>,
    pub count: usize,
    pub per_buffer: usize,
    pub last_fence: Option<Fence>,
    pub next_id: u64,
    pub history: Seq<Action>,
}

/// A scheduler and an exchange with the device.
#[verifier::ext_equal]
pub ghost struct World {
    pub s: Schedule,
    pub io: ExchangeView,
}

/// What handing over the current command buffer ends in.
pub ghost enum SwapEnd {
    Done,
    Pending,
    NotCreated,
}

impl World {
    /// Something was asked of the device.
    pub open spec fn act(self, a: Action) -> World {
        World { s: Schedule { history: self.s.history.push(a), ..self.s }, io: self.io.act(a) }
    }

    /// A status was asked for and answered.
    pub open spec fn asked_status(self, cb: CommandBuffer) -> World {
        World {
            s: Schedule { history: self.s.history.push(Action::AskStatus(cb)), ..self.s },
            io: self.io.asked_status(cb),
        }
    }

    /// A command buffer was asked for and answered.
    pub open spec fn asked_create(self, cb: CommandBuffer) -> World {
        World {
            s: Schedule { history: self.s.history.push(Action::Create(cb)), ..self.s },
            io: self.io.asked_create(cb),
        }
    }

    /// An open compute encoder signals its fence, which the next encoder will wait for, and ends.
    pub open spec fn ended(self) -> World {
        match self.s.encoder {
            None => self,
            Some(enc) => {
                let w = World {
                    s: Schedule { encoder: None, last_fence: Some(enc.fence), ..self.s },
                    ..self
                };
                w.act(Action::UpdateFence { encoder: enc.id, fence: enc.fence }).act(
                    Action::EndEncoding { encoder: enc.id },
                )
            },
        }
    }

    /// The current command buffer, asked for its status, is committed unless it was already.
    pub open spec fn committed(self) -> World {
        let status = self.io.statuses[0];
        let w = self.asked_status(self.s.current);
        if status == MTLCommandBufferStatus::NotEnqueued || status
            == MTLCommandBufferStatus::Enqueued {
            w.act(Action::Commit(self.s.current))
        } else {
            w
        }
    }

    /// A new command buffer takes the place of the current one, which goes behind those in flight.
    pub open spec fn swapped(self, reset_to: usize) -> World {
        World {
            s: Schedule {
                current: CommandBuffer { id: self.s.next_id },
                in_flight: self.s.in_flight.push(self.s.current),
                count: reset_to,
                next_id: (self.s.next_id + 1) as u64,
                ..self.s
            },
            ..self
        }
    }

    /// Handing over the current command buffer: the open encoder ends, the buffer is committed, and
    /// a new one takes its place. Where the device makes none, nothing more happens.
    pub open spec fn swap(self, reset_to: usize) -> (World, SwapEnd) {
        let ended = self.ended();
        if ended.io.statuses.len() == 0 {
            (ended.act(Action::AskStatus(ended.s.current)), SwapEnd::Pending)
        } else {
            let committed = ended.committed();
            let cb = CommandBuffer { id: committed.s.next_id };
            if committed.io.created.len() == 0 {
                (committed.act(Action::Create(cb)), SwapEnd::Pending)
            } else if committed.io.created[0] {
                (committed.asked_create(cb).swapped(reset_to), SwapEnd::Done)
            } else {
                (committed.asked_create(cb), SwapEnd::NotCreated)
            }
        }
    }

    /// The count of encoders asked for goes up; at the limit the current command buffer is handed
    /// over first, and the count starts anew with this one.
    pub open spec fn counted(self) -> (World, SwapEnd) {
        let w = World {
            s: Schedule {
                count: if self.s.count == usize::MAX {
                    0
                } else {
                    (self.s.count + 1) as usize
                },
                ..self.s
            },
            ..self
        };
        if self.s.count >= self.s.per_buffer {
            w.swap(1)
        } else {
            (w, SwapEnd::Done)
        }
    }

    /// A wait for the fence of the encoder before, where there is one.
    pub open spec fn chained(self, encoder: u64) -> World {
        match self.s.last_fence {
            Some(fence) => self.act(Action::WaitForFence { encoder, fence }),
            None => self,
        }
    }

    /// The next compute encoder.
    pub open spec fn next_compute(self) -> ComputeCommandEncoder {
        ComputeCommandEncoder {
            id: (self.s.next_id + 1) as u64,
            fence: Fence { id: self.s.next_id },
        }
    }

    /// The next blit encoder.
    pub open spec fn next_blit(self) -> BlitCommandEncoder {
        BlitCommandEncoder {
            id: (self.s.next_id + 1) as u64,
            fence: Fence { id: self.s.next_id },
        }
    }

    /// A compute encoder is begun on the current command buffer.
    pub open spec fn compute_begun(self) -> World {
        let enc = self.next_compute();
        let w = self.act(Action::NewFence(enc.fence)).act(
            Action::BeginCompute { on: self.s.current, compute: enc },
        ).chained(enc.id);
        World {
            s: Schedule {
                encoder: Some(enc),
                next_id: (self.s.next_id + 2) as u64,
                ..w.s
            },
            ..w
        }
    }

    /// A blit encoder is begun on the current command buffer.
    pub open spec fn blit_begun(self) -> World {
        let enc = self.next_blit();
        let w = self.act(Action::NewFence(enc.fence)).act(
            Action::BeginBlit { on: self.s.current, blit: enc },
        ).chained(enc.id);
        World {
            s: Schedule { blit: Some(enc), next_id: (self.s.next_id + 2) as u64, ..w.s },
            ..w
        }
    }

    /// Calls that were recorded on an encoder are made.
    pub open spec fn recorded(self, calls: Seq<Action>) -> World {
        World {
            s: Schedule { history: self.s.history + calls, ..self.s },
            io: ExchangeView { log: self.io.log + calls, ..self.io },
        }
    }
}

/// The command buffers and encoders of one command queue.
pub struct Commands {
    state: EntryState,
    compute_count: usize,
    /// The maximum number of encoders per command buffer.
    compute_per_buffer: usize,
    /// The fence of the encoder before, if any. It is kept over command buffers.
    last_fence: Option<Fence>,
    /// The blit encoder that the queue is held for, if any.
    open_blit: Option<BlitCommandEncoder>,
    next_id: u64,
    history: Ghost<Seq<Action>>,
}

/// What contracts see of a scheduler and an exchange together.
pub open spec fn world(c: Commands, io: Exchange) -> World {
    World { s: c@, io: io@ }
}

/// How the outcome of handing over a command buffer shows in a result.
pub open spec fn is_swap_end<T>(end: SwapEnd, r: Result<T, Stop>) -> bool {
    match end {
        SwapEnd::Done => true,
        SwapEnd::Pending => r matches Err(e) && e is Pending,
        SwapEnd::NotCreated => r matches Err(Stop::Failed(
            MetalKernelError::FailedToCreateResource(kind),
        )) && kind@ == "CommandBuffer"@,
    }
}

impl Commands {
    /// What contracts see.
    pub closed spec fn view(&self) -> Schedule {
        Schedule {
            current: self.state.current,
            in_flight: self.state.in_flight@,
            encoder: self.state.current_encoder,
            blit: self.open_blit,
            count: self.compute_count,
            per_buffer: self.compute_per_buffer,
            last_fence: self.last_fence,
            next_id: self.next_id,
            history: self.history@,
        }
    }

    /// There are names left for what an operation makes.
    pub open spec fn has_names(&self) -> bool {
        self@.next_id <= u64::MAX - 3
    }

    /// Whether an encoder can be asked for: there are names left, and the queue is held for no blit.
    pub fn is_ready(&self) -> (r: bool)
        ensures
            r == (self.has_names() && self@.blit is None),
    {
        self.next_id <= u64::MAX - 3 && self.open_blit.is_none()
    }

    /// The command buffers that were handed over and not yet waited for, the oldest first.
    pub fn in_flight(&self) -> (r: &Vec<CommandBuffer>)
        ensures
            r@ == self@.in_flight,
    {
        &self.state.in_flight
    }

    /// Asks something of the device.
    fn act(&mut self, io: &mut Exchange, a: Action)
        ensures
            world(*final(self), *final(io)) == world(*old(self), *old(io)).act(a),
    {
        io.act(a);
        self.history = Ghost(self.history@.push(a));
    }

    /// Signals an encoder's fence, makes it what the next encoder waits for, and ends the encoder.
    fn end_encoding(&mut self, io: &mut Exchange)
        ensures
            world(*final(self), *final(io)) == world(*old(self), *old(io)).ended(),
    {
        match self.state.current_encoder {
            None => {},
            Some(enc) => {
                self.state.current_encoder = None;
                self.act(io, Action::UpdateFence { encoder: enc.id, fence: enc.fence });
                self.last_fence = Some(enc.fence);
                self.act(io, Action::EndEncoding { encoder: enc.id });
            },
        }
    }

    /// Hands over the current command buffer and puts a new one in its place.
    fn commit_swap_locked(&mut self, io: &mut Exchange, reset_to: usize) -> (r: Result<(), Stop>)
        requires
            old(self)@.next_id < u64::MAX,
        ensures
            world(*final(self), *final(io)) == world(*old(self), *old(io)).swap(reset_to).0,
            is_swap_end(world(*old(self), *old(io)).swap(reset_to).1, r),
            r is Ok <==> world(*old(self), *old(io)).swap(reset_to).1 is Done,
    {
        self.end_encoding(io);
        let current = self.state.current;
        let ghost ended = world(*self, *io);
        self.history = Ghost(self.history@.push(Action::AskStatus(current)));
        let status = io.ask_status(current)?;
        match status {
            MTLCommandBufferStatus::NotEnqueued | MTLCommandBufferStatus::Enqueued => {
                self.act(io, Action::Commit(current));
            },
            _ => {},
        }
        assert(world(*self, *io) == ended.committed());
        let new_cb = CommandBuffer { id: self.next_id };
        self.history = Ghost(self.history@.push(Action::Create(new_cb)));
        let created: bool = io.ask_create(new_cb)?;
        if !created {
            return Err(
                Stop::Failed(
                    MetalKernelError::FailedToCreateResource(String::from_str("CommandBuffer")),
                ),
            );
        }
        self.next_id = self.next_id + 1;
        self.state.current = new_cb;
        self.state.in_flight.push(current);
        self.compute_count = reset_to;
        Ok(())
    }

    /// Counts an encoder that was asked for, and hands over the current command buffer at the
    /// limit.
    fn count_encoder(&mut self, io: &mut Exchange) -> (r: Result<(), Stop>)
        requires
            old(self)@.next_id < u64::MAX,
        ensures
            world(*final(self), *final(io)) == world(*old(self), *old(io)).counted().0,
            is_swap_end(world(*old(self), *old(io)).counted().1, r),
            r is Ok <==> world(*old(self), *old(io)).counted().1 is Done,
    {
        let count: usize = self.compute_count;
        self.compute_count = if count == usize::MAX {
            0
        } else {
            count + 1
        };
        if count >= self.compute_per_buffer {
            self.commit_swap_locked(io, 1)
        } else {
            Ok(())
        }
    }
}

/// The message of a command buffer's failure.
pub open spec fn failure_text(answer: Option<Seq<char>>) -> Seq<char> {
    match answer {
        Some(text) => text,
        None => "unknown error"@,
    }
}

/// A result that reports a command buffer's failure.
pub open spec fn is_failure<T>(r: Result<T, Stop>, text: Seq<char>) -> bool {
    r matches Err(Stop::Failed(MetalKernelError::CommandBufferError(said))) && said@ == text
}

/// Asks for the message of a command buffer's failure and reports it.
fn report_failure(cb: CommandBuffer, io: &mut Exchange) -> (r: Stop)
    ensures
        old(io)@.errors.len() == 0 ==> r is Pending && final(io)@ == old(io)@.act(
            Action::AskError(cb),
        ),
        old(io)@.errors.len() > 0 ==> is_failure(
            Err::<(), Stop>(r),
            failure_text(old(io)@.errors[0]),
        ) && final(io)@ == old(io)@.asked_error(cb),
{
    match io.ask_error(cb) {
        Ok(Some(text)) => Stop::Failed(MetalKernelError::CommandBufferError(text)),
        Ok(None) => Stop::Failed(
            MetalKernelError::CommandBufferError(String::from_str("unknown error")),
        ),
        Err(e) => e,
    }
}

/// What waiting for a command buffer asks of the device.
pub open spec fn completed(io: ExchangeView, cb: CommandBuffer) -> ExchangeView {
    if io.statuses.len() == 0 {
        io.act(Action::AskStatus(cb))
    } else {
        let asked = io.asked_status(cb);
        match io.statuses[0] {
            MTLCommandBufferStatus::NotEnqueued | MTLCommandBufferStatus::Enqueued => asked.act(
                Action::Commit(cb),
            ).act(Action::WaitUntilCompleted(cb)),
            MTLCommandBufferStatus::Committed | MTLCommandBufferStatus::Scheduled => asked.act(
                Action::WaitUntilCompleted(cb),
            ),
            MTLCommandBufferStatus::Completed => asked,
            MTLCommandBufferStatus::Error => if asked.errors.len() == 0 {
                asked.act(Action::AskError(cb))
            } else {
                asked.asked_error(cb)
            },
        }
    }
}

/// A command buffer whose status is answered, and that did not fail, is done after waiting.
pub open spec fn completes(io: ExchangeView) -> bool {
    io.statuses.len() > 0 && io.statuses[0] != MTLCommandBufferStatus::Error
}

/// What waiting for a command buffer gives.
pub open spec fn is_completed(io: ExchangeView, r: Result<(), Stop>) -> bool {
    if io.statuses.len() == 0 {
        r matches Err(e) && e is Pending
    } else if io.statuses[0] == MTLCommandBufferStatus::Error {
        if io.errors.len() == 0 {
            r matches Err(e) && e is Pending
        } else {
            is_failure(r, failure_text(io.errors[0]))
        }
    } else {
        r is Ok
    }
}

/// What looking for failed command buffers asks of the device: the status of each in turn, and the
/// message of the first that failed.
pub open spec fn checked(io: ExchangeView, cbs: Seq<CommandBuffer>) -> ExchangeView
    decreases cbs.len(),
{
    if cbs.len() == 0 {
        io
    } else if io.statuses.len() == 0 {
        io.act(Action::AskStatus(cbs[0]))
    } else {
        let asked = io.asked_status(cbs[0]);
        if io.statuses[0] != MTLCommandBufferStatus::Error {
            checked(asked, cbs.drop_first())
        } else if asked.errors.len() == 0 {
            asked.act(Action::AskError(cbs[0]))
        } else {
            asked.asked_error(cbs[0])
        }
    }
}

/// What looking for failed command buffers gives: the first failure, if any.
pub open spec fn is_checked(io: ExchangeView, cbs: Seq<CommandBuffer>, r: Result<(), Stop>) -> bool
    decreases cbs.len(),
{
    if cbs.len() == 0 {
        r is Ok
    } else if io.statuses.len() == 0 {
        r matches Err(e) && e is Pending
    } else if io.statuses[0] != MTLCommandBufferStatus::Error {
        is_checked(io.asked_status(cbs[0]), cbs.drop_first(), r)
    } else if io.errors.len() == 0 {
        r matches Err(e) && e is Pending
    } else {
        is_failure(r, failure_text(io.errors[0]))
    }
}

/// What keeping the command buffers that are not done asks of the device: the status of each.
pub open spec fn sifted(io: ExchangeView, cbs: Seq<CommandBuffer>) -> ExchangeView
    decreases cbs.len(),
{
    if cbs.len() == 0 {
        io
    } else if io.statuses.len() == 0 {
        io.act(Action::AskStatus(cbs[0]))
    } else {
        sifted(io.asked_status(cbs[0]), cbs.drop_first())
    }
}

/// The command buffers that are not done, given the status of each.
pub open spec fn unfinished(
    statuses: Seq<MTLCommandBufferStatus>,
    cbs: Seq<CommandBuffer>,
) -> Seq<CommandBuffer>
    decreases cbs.len(),
{
    if cbs.len() == 0 {
        Seq::empty()
    } else {
        let rest = unfinished(statuses.drop_first(), cbs.drop_first());
        if statuses[0] == MTLCommandBufferStatus::Completed {
            rest
        } else {
            seq![cbs[0]] + rest
        }
    }
}

impl Clone for Commands {
    /// The same scheduler again, so that an operation that stopped can be run from the same state.
    fn clone(&self) -> (r: Self)
        ensures
            r@ == self@,
    {
        let mut in_flight: Vec<CommandBuffer> = Vec::new();
        let mut i: usize = 0;
        while i < self.state.in_flight.len()
            invariant
                i <= self.state.in_flight@.len(),
                in_flight@ == self.state.in_flight@.take(i as int),
            decreases self.state.in_flight@.len() - i,
        {
            in_flight.push(self.state.in_flight[i]);
            i = i + 1;
            assert(in_flight@ =~= self.state.in_flight@.take(i as int));
        }
        assert(self.state.in_flight@.take(i as int) =~= self.state.in_flight@);
        Commands {
            state: EntryState {
                current: self.state.current,
                in_flight,
                current_encoder: self.state.current_encoder,
            },
            compute_count: self.compute_count,
            compute_per_buffer: self.compute_per_buffer,
            last_fence: self.last_fence,
            open_blit: self.open_blit,
            next_id: self.next_id,
            history: Ghost(self.history@),
        }
    }
}

impl Commands {
    /// Makes sure that a command buffer is done: commits it where that has not happened, and waits
    /// for it where it is not done. A failure is reported with the device's message.
    pub fn ensure_completed(cb: CommandBuffer, io: &mut Exchange) -> (r: Result<(), Stop>)
        ensures
            final(io)@ == completed(old(io)@, cb),
            is_completed(old(io)@, r),
            r is Ok ==> crate::metal::laws::is_done(old(io)@, final(io)@, cb),
    {
        proof {
            crate::metal::laws::law_waiting_ends_with_the_buffer_done(io@, cb);
        }
        let status = io.ask_status(cb)?;
        match status {
            MTLCommandBufferStatus::NotEnqueued | MTLCommandBufferStatus::Enqueued => {
                io.act(Action::Commit(cb));
                io.act(Action::WaitUntilCompleted(cb));
            },
            MTLCommandBufferStatus::Committed | MTLCommandBufferStatus::Scheduled => {
                io.act(Action::WaitUntilCompleted(cb));
            },
            MTLCommandBufferStatus::Completed => {},
            MTLCommandBufferStatus::Error => {
                return Err(report_failure(cb, io));
            },
        }
        Ok(())
    }

    /// Waits for command buffers in the order in which they were handed over. The device runs them
    /// in that order, so waiting for the last is enough; the others are then looked at for failures.
    pub fn wait_for_all(to_wait: &Vec<CommandBuffer>, io: &mut Exchange) -> (r: Result<(), Stop>)
        ensures
            to_wait@.len() == 0 ==> r is Ok && final(io)@ == old(io)@,
            to_wait@.len() > 0 && r is Ok ==> crate::metal::laws::is_done(
                old(io)@,
                final(io)@,
                to_wait@.last(),
            ),
            to_wait@.len() > 0 ==> {
                let waited = completed(old(io)@, to_wait@.last());
                if completes(old(io)@) {
                    final(io)@ == checked(waited, to_wait@.drop_last()) && is_checked(
                        waited,
                        to_wait@.drop_last(),
                        r,
                    )
                } else {
                    final(io)@ == waited && is_completed(old(io)@, r)
                }
            },
    {
        let n: usize = to_wait.len();
        if n == 0 {
            return Ok(());
        }
        let ghost before = io@;
        proof {
            crate::metal::laws::law_waiting_for_all(io@, to_wait@);
        }
        Commands::ensure_completed(to_wait[n - 1], io)?;
        let ghost waited = io@;
        let ghost earlier = to_wait@.drop_last();
        let mut i: usize = 0;
        assert(earlier.skip(0) =~= earlier);
        while i < n - 1
            invariant
                i <= n - 1,
                n == to_wait@.len(),
                earlier == to_wait@.drop_last(),
                checked(waited, earlier) == checked(io@, earlier.skip(i as int)),
                forall|r: Result<(), Stop>|
                    #![trigger is_checked(waited, earlier, r)]
                    is_checked(waited, earlier, r) <==> is_checked(io@, earlier.skip(i as int), r),
                waited == completed(before, to_wait@.last()),
                completes(before),
                before == old(io)@,
            decreases n - i,
        {
            let cb = to_wait[i];
            assert(earlier.skip(i as int)[0] == cb);
            assert(earlier.skip(i as int).drop_first() =~= earlier.skip(i + 1));
            let status = match io.ask_status(cb) {
                Ok(status) => status,
                Err(e) => {
                    let r = Err(e);
                    assert(is_checked(waited, earlier, r));
                    return r;
                },
            };
            if status == MTLCommandBufferStatus::Error {
                let r = Err(report_failure(cb, io));
                assert(is_checked(waited, earlier, r));
                return r;
            }
            i = i + 1;
        }
        assert(earlier.skip(i as int).len() == 0);
        assert(is_checked(waited, earlier, Ok::<(), Stop>(())));
        Ok(())
    }
}

impl World {
    /// What asking for a compute encoder does: the encoder that is open is used on, or one is begun.
    pub open spec fn compute_asked(self) -> World {
        let (w, end) = self.counted();
        if end is Done && w.s.encoder is None {
            w.compute_begun()
        } else {
            w
        }
    }

    /// What asking for a blit encoder does: an open compute encoder ends first.
    pub open spec fn blit_asked(self) -> World {
        let (w, end) = self.counted();
        if end is Done {
            w.ended().blit_begun()
        } else {
            w
        }
    }

    /// What a flush does: nothing where no encoder was asked for since the last one.
    pub open spec fn flushed(self) -> (World, SwapEnd) {
        if self.s.count > 0 {
            self.swap(0)
        } else {
            (self, SwapEnd::Done)
        }
    }

    /// The blit encoder that the queue is held for signals its fence and ends.
    pub open spec fn blit_ended(self, enc: BlitCommandEncoder, calls: Seq<Action>) -> World {
        let w = self.recorded(calls).act(
            Action::UpdateFence { encoder: enc.id, fence: enc.fence },
        ).act(Action::EndEncoding { encoder: enc.id });
        World { s: Schedule { blit: None, last_fence: Some(enc.fence), ..w.s }, ..w }
    }
}

/// The limit that a setting gives, or the default.
pub open spec fn limit_of(setting: Option<Seq<char>>) -> usize {
    match setting {
        Some(text) => match count_in(text) {
            Some(n) => n,
            None => DEFAULT_COMPUTE_PER_BUFFER,
        },
        None => DEFAULT_COMPUTE_PER_BUFFER,
    }
}

/// The value of a row of decimal digits.
pub open spec fn digits_value(digits: Seq<char>) -> nat
    decreases digits.len(),
{
    if digits.len() == 0 {
        0
    } else {
        10 * digits_value(digits.drop_last()) + (digits.last() as nat - '0' as nat) as nat
    }
}

/// A row of decimal digits.
pub open spec fn all_digits(text: Seq<char>) -> bool {
    forall|i: int| 0 <= i < text.len() ==> '0' <= #[trigger] text[i] <= '9'
}

/// The count that a text writes: decimal digits, at least one, with or without a plus sign in
/// front, of a value that fits.
pub open spec fn count_in(text: Seq<char>) -> Option<usize> {
    let digits = if text.len() > 0 && text[0] == '+' {
        text.drop_first()
    } else {
        text
    };
    if digits.len() > 0 && all_digits(digits) && digits_value(digits) <= usize::MAX {
        Some(digits_value(digits) as usize)
    } else {
        None
    }
}

/// The value of a row of digits is no smaller than that of its beginning.
proof fn lemma_value_of_prefix(digits: Seq<char>, k: int)
    requires
        0 <= k <= digits.len(),
        all_digits(digits),
    ensures
        digits_value(digits.take(k)) <= digits_value(digits),
    decreases digits.len(),
{
    if k < digits.len() {
        let rest = digits.drop_last();
        assert(all_digits(rest));
        lemma_value_of_prefix(rest, k);
        assert(rest.take(k) =~= digits.take(k));
    } else {
        assert(digits.take(k) =~= digits);
    }
}

/// The count that a text writes, if any.
pub fn parse_count(text: &str) -> (r: Option<usize>)
    ensures
        r == count_in(text@),
{
    let n: usize = text.unicode_len();
    let start: usize = if n > 0 && text.get_char(0) == '+' {
        1
    } else {
        0
    };
    let ghost digits = text@.skip(start as int);
    assert(start == 0 ==> digits =~= text@);
    assert(start == 1 ==> digits =~= text@.drop_first());
    if start == n {
        return None;
    }
    let mut value: usize = 0;
    let mut i: usize = start;
    while i < n
        invariant
            start <= i <= n,
            n == text@.len(),
            digits == text@.skip(start as int),
            all_digits(digits.take(i - start)),
            value == digits_value(digits.take(i - start)),
            start < n,
            start <= 1,
            start == 1 <==> (text@.len() > 0 && text@[0] == '+'),
            start == 0 ==> digits == text@,
            start == 1 ==> digits == text@.drop_first(),
        decreases n - i,
    {
        let c = text.get_char(i);
        assert(c == digits[i - start]);
        if c < '0' || c > '9' {
            assert(!all_digits(digits));
            return None;
        }
        let d: usize = (c as u32 - '0' as u32) as usize;
        let ghost k = i - start;
        assert(digits.take(k + 1).drop_last() =~= digits.take(k));
        assert forall|j: int| 0 <= j < k + 1 implies '0' <= #[trigger] digits.take(k + 1)[j]
            <= '9' by {
            if j < k {
                assert(digits.take(k)[j] == digits[j]);
            }
        }
        let next: Option<usize> = match value.checked_mul(10) {
            Some(tens) => tens.checked_add(d),
            None => None,
        };
        match next {
            Some(v) => {
                value = v;
            },
            None => {
                proof {
                    if all_digits(digits) {
                        lemma_value_of_prefix(digits, k + 1);
                    }
                }
                return None;
            },
        }
        i = i + 1;
    }
    assert(digits.take(i - start) =~= digits);
    Some(value)
}

impl Commands {
    /// A scheduler for a queue. `setting` is the environment's limit on encoders per command
    /// buffer: where it writes no count, the default holds.
    pub fn new(setting: Option<&str>, has_residency_set: bool, io: &mut Exchange) -> (r: Result<
        Commands,
        Stop,
    >)
        ensures
            ({
                let cb = CommandBuffer { id: 0 };
                let added = if has_residency_set {
                    old(io)@.act(Action::AddResidencySet)
                } else {
                    old(io)@
                };
                if added.created.len() == 0 {
                    final(io)@ == added.act(Action::Create(cb)) && (r matches Err(e) && e is Pending)
                } else {
                    &&& final(io)@ == added.asked_create(cb)
                    &&& is_swap_end(
                        if added.created[0] {
                            SwapEnd::Done
                        } else {
                            SwapEnd::NotCreated
                        },
                        r,
                    )
                    &&& added.created[0] <==> r is Ok
                    &&& r matches Ok(c) ==> c@ == (Schedule {
                        current: cb,
                        in_flight: Seq::empty(),
                        encoder: None,
                        blit: None,
                        count: 0,
                        per_buffer: limit_of(
                            match setting {
                                Some(text) => Some(text@),
                                None => None,
                            },
                        ),
                        last_fence: None,
                        next_id: 1,
                        history: Seq::empty(),
                    })
                }
            }),
    {
        let compute_per_buffer: usize = match setting {
            Some(text) => match parse_count(text) {
                Some(n) => n,
                None => DEFAULT_COMPUTE_PER_BUFFER,
            },
            None => DEFAULT_COMPUTE_PER_BUFFER,
        };
        if has_residency_set {
            io.act(Action::AddResidencySet);
        }
        let cb = CommandBuffer { id: 0 };
        let created: bool = io.ask_create(cb)?;
        if !created {
            return Err(
                Stop::Failed(
                    MetalKernelError::FailedToCreateResource(String::from_str("CommandBuffer")),
                ),
            );
        }
        Ok(
            Commands {
                state: EntryState::new(cb),
                compute_count: 0,
                compute_per_buffer,
                last_fence: None,
                open_blit: None,
                next_id: 1,
                history: Ghost(Seq::empty()),
            },
        )
    }

    /// Waits for the fence of the encoder before, where there is one.
    fn chain(&mut self, io: &mut Exchange, encoder: u64)
        ensures
            world(*final(self), *final(io)) == world(*old(self), *old(io)).chained(encoder),
    {
        match self.last_fence {
            Some(fence) => {
                self.act(io, Action::WaitForFence { encoder, fence });
            },
            None => {},
        }
    }

    /// The compute encoder to record on: the open one, or a new one that waits for the encoder
    /// before it. At the limit the current command buffer is handed over first.
    pub fn command_encoder(&mut self, io: &mut Exchange) -> (r: Result<CommandsGuard, Stop>)
        requires
            old(self).has_names(),
            old(self)@.blit is None,
        ensures
            world(*final(self), *final(io)) == world(*old(self), *old(io)).compute_asked(),
            is_swap_end(world(*old(self), *old(io)).counted().1, r),
            r is Ok <==> world(*old(self), *old(io)).counted().1 is Done,
            r matches Ok(guard) ==> final(self)@.encoder == Some(guard.encoder()) && guard.calls()
                == Seq::<Action>::empty() && guard.is_valid(),
            r is Ok ==> final(self)@.count <= 1 || final(self)@.count <= final(self)@.per_buffer,
    {
        self.count_encoder(io)?;
        let encoder = match self.state.current_encoder {
            Some(enc) => enc,
            None => {
                let fence = Fence { id: self.next_id };
                let enc = ComputeCommandEncoder { id: self.next_id + 1, fence };
                self.act(io, Action::NewFence(fence));
                let on = self.state.current;
                self.act(io, Action::BeginCompute { on, compute: enc });
                self.chain(io, enc.id);
                self.next_id = self.next_id + 2;
                self.state.current_encoder = Some(enc);
                enc
            },
        };
        Ok(CommandsGuard { encoder, calls: Vec::new() })
    }

    /// Makes the calls that were recorded on the compute encoder. The encoder stays open.
    pub fn release(&mut self, guard: CommandsGuard, io: &mut Exchange)
        requires
            guard.is_valid(),
            old(self)@.encoder == Some(guard.encoder()),
            old(self)@.blit is None,
        ensures
            world(*final(self), *final(io)) == world(*old(self), *old(io)).recorded(guard.calls()),
    {
        let mut calls = guard.calls;
        self.record(&mut calls, io);
    }

    /// Makes calls that were recorded.
    fn record(&mut self, calls: &mut Vec<Action>, io: &mut Exchange)
        ensures
            world(*final(self), *final(io)) == world(*old(self), *old(io)).recorded(old(calls)@),
    {
        self.history = Ghost(self.history@ + calls@);
        io.act_all(calls);
    }

    /// A new blit encoder, which waits for the encoder before it. An open compute encoder ends
    /// first; at the limit the current command buffer is handed over before that.
    pub fn blit_command_encoder(&mut self, io: &mut Exchange) -> (r: Result<BlitCommandsGuard, Stop>)
        requires
            old(self).has_names(),
            old(self)@.blit is None,
        ensures
            world(*final(self), *final(io)) == world(*old(self), *old(io)).blit_asked(),
            is_swap_end(world(*old(self), *old(io)).counted().1, r),
            r is Ok <==> world(*old(self), *old(io)).counted().1 is Done,
            r matches Ok(guard) ==> final(self)@.blit == Some(guard.encoder()) && guard.calls()
                == Seq::<Action>::empty() && guard.is_valid(),
            r is Ok ==> final(self)@.count <= 1 || final(self)@.count <= final(self)@.per_buffer,
    {
        self.count_encoder(io)?;
        self.end_encoding(io);
        let fence = Fence { id: self.next_id };
        let enc = BlitCommandEncoder { id: self.next_id + 1, fence };
        self.act(io, Action::NewFence(fence));
        let on = self.state.current;
        self.act(io, Action::BeginBlit { on, blit: enc });
        self.chain(io, enc.id);
        self.next_id = self.next_id + 2;
        self.open_blit = Some(enc);
        Ok(BlitCommandsGuard { state: enc, calls: Vec::new() })
    }

    /// Makes the calls that were recorded on a blit encoder, signals its fence and ends it.
    pub fn end_blit(&mut self, guard: BlitCommandsGuard, io: &mut Exchange)
        requires
            guard.is_valid(),
            old(self)@.blit == Some(guard.encoder()),
        ensures
            world(*final(self), *final(io)) == world(*old(self), *old(io)).blit_ended(
                guard.encoder(),
                guard.calls(),
            ),
    {
        let enc = guard.state;
        let mut calls = guard.calls;
        self.record(&mut calls, io);
        self.act(io, Action::UpdateFence { encoder: enc.id, fence: enc.fence });
        self.last_fence = Some(enc.fence);
        self.act(io, Action::EndEncoding { encoder: enc.id });
        self.open_blit = None;
    }

    /// Hands over the current command buffer where encoders were asked for since the last time.
    pub fn flush(&mut self, io: &mut Exchange) -> (r: Result<(), Stop>)
        requires
            old(self).has_names(),
            old(self)@.blit is None,
        ensures
            world(*final(self), *final(io)) == world(*old(self), *old(io)).flushed().0,
            is_swap_end(world(*old(self), *old(io)).flushed().1, r),
            r is Ok <==> world(*old(self), *old(io)).flushed().1 is Done,
    {
        if self.compute_count > 0 {
            self.commit_swap_locked(io, 0)
        } else {
            Ok(())
        }
    }

    /// Flushes, and takes the command buffers that are in flight, to be waited for once the queue
    /// is let go.
    pub fn flush_and_take(&mut self, io: &mut Exchange) -> (r: Result<Vec<CommandBuffer>, Stop>)
        requires
            old(self).has_names(),
            old(self)@.blit is None,
        ensures
            ({
                let (w, end) = world(*old(self), *old(io)).flushed();
                &&& is_swap_end(end, r)
                &&& r is Ok <==> end is Done
                &&& match r {
                    Ok(taken) => taken@ == w.s.in_flight && world(*final(self), *final(io)) == (
                    World { s: Schedule { in_flight: Seq::empty(), ..w.s }, ..w }),
                    Err(_) => world(*final(self), *final(io)) == w,
                }
            }),
    {
        self.flush(io)?;
        let mut taken: Vec<CommandBuffer> = Vec::new();
        std::mem::swap(&mut taken, &mut self.state.in_flight);
        Ok(taken)
    }

    /// Flushes and waits for everything that is in flight. The fence of the encoder before is kept:
    /// it has been signalled, so to wait for it again costs nothing.
    pub fn flush_and_wait(&mut self, io: &mut Exchange) -> (r: Result<(), Stop>)
        requires
            old(self).has_names(),
            old(self)@.blit is None,
        ensures
            ({
                let (w, end) = world(*old(self), *old(io)).flushed();
                if end is Done {
                    &&& r is Ok && w.s.in_flight.len() > 0 ==> crate::metal::laws::is_done(
                        w.io,
                        final(io)@,
                        w.s.in_flight.last(),
                    )
                    &&& final(self)@ == (Schedule { in_flight: Seq::empty(), ..w.s })
                    &&& w.s.in_flight.len() == 0 ==> r is Ok && final(io)@ == w.io
                    &&& w.s.in_flight.len() > 0 ==> {
                        let waited = completed(w.io, w.s.in_flight.last());
                        let earlier = w.s.in_flight.drop_last();
                        if completes(w.io) {
                            final(io)@ == checked(waited, earlier) && is_checked(waited, earlier, r)
                        } else {
                            final(io)@ == waited && is_completed(w.io, r)
                        }
                    }
                } else {
                    is_swap_end(end, r) && world(*final(self), *final(io)) == w
                }
            }),
    {
        let to_wait = self.flush_and_take(io)?;
        Commands::wait_for_all(&to_wait, io)
    }

    /// Flushes and waits for everything that is in flight.
    pub fn wait_until_completed(&mut self, io: &mut Exchange) -> (r: Result<(), Stop>)
        requires
            old(self).has_names(),
            old(self)@.blit is None,
        ensures
            ({
                let (w, end) = world(*old(self), *old(io)).flushed();
                if end is Done {
                    &&& r is Ok && w.s.in_flight.len() > 0 ==> crate::metal::laws::is_done(
                        w.io,
                        final(io)@,
                        w.s.in_flight.last(),
                    )
                    &&& final(self)@ == (Schedule { in_flight: Seq::empty(), ..w.s })
                    &&& w.s.in_flight.len() == 0 ==> r is Ok && final(io)@ == w.io
                    &&& w.s.in_flight.len() > 0 ==> {
                        let waited = completed(w.io, w.s.in_flight.last());
                        let earlier = w.s.in_flight.drop_last();
                        if completes(w.io) {
                            final(io)@ == checked(waited, earlier) && is_checked(waited, earlier, r)
                        } else {
                            final(io)@ == waited && is_completed(w.io, r)
                        }
                    }
                } else {
                    is_swap_end(end, r) && world(*final(self), *final(io)) == w
                }
            }),
    {
        self.flush_and_wait(io)
    }

    /// Hands over the current command buffer, even where nothing was encoded, and gives it as a
    /// handle: everything encoded up to here is done when it is.
    pub fn flush_returning_handle(&mut self, io: &mut Exchange) -> (r: Result<CommandBuffer, Stop>)
        requires
            old(self).has_names(),
            old(self)@.blit is None,
        ensures
            world(*final(self), *final(io)) == world(*old(self), *old(io)).swap(0).0,
            is_swap_end(world(*old(self), *old(io)).swap(0).1, r),
            r is Ok <==> world(*old(self), *old(io)).swap(0).1 is Done,
            r matches Ok(cb) ==> cb == old(self)@.current && final(self)@.in_flight.last() == cb,
    {
        let cb = self.state.current;
        self.commit_swap_locked(io, 0)?;
        Ok(cb)
    }

    /// Drops the command buffers that are done from those in flight.
    pub fn forget_completed(&mut self, io: &mut Exchange) -> (r: Result<(), Stop>)
        ensures
            final(io)@ == sifted(old(io)@, old(self)@.in_flight),
            r is Ok <==> old(io)@.statuses.len() >= old(self)@.in_flight.len(),
            r matches Err(e) ==> e is Pending && final(self)@ == old(self)@,
            r is Ok ==> final(self)@ == (Schedule {
                in_flight: unfinished(old(io)@.statuses, old(self)@.in_flight),
                ..old(self)@
            }),
    {
        let ghost all = self.state.in_flight@;
        let ghost before = io@;
        let mut kept: Vec<CommandBuffer> = Vec::new();
        let mut i: usize = 0;
        assert(all.skip(0) =~= all);
        assert(before.statuses.skip(0) =~= before.statuses);
        assert(Seq::<CommandBuffer>::empty() + unfinished(before.statuses, all) =~= unfinished(
            before.statuses,
            all,
        ));
        while i < self.state.in_flight.len()
            invariant
                i <= self.state.in_flight@.len(),
                self.state.in_flight@ == all,
                self@ == old(self)@,
                before == old(io)@,
                i <= before.statuses.len(),
                io@.statuses == before.statuses.skip(i as int),
                sifted(before, all) == sifted(io@, all.skip(i as int)),
                unfinished(before.statuses, all) == kept@ + unfinished(
                    io@.statuses,
                    all.skip(i as int),
                ),
            decreases self.state.in_flight@.len() - i,
        {
            let cb = self.state.in_flight[i];
            let ghost rest = all.skip(i as int);
            let ghost left = io@.statuses;
            assert(rest[0] == cb);
            assert(rest.drop_first() =~= all.skip(i + 1));
            let status = io.ask_status(cb)?;
            assert(left.drop_first() =~= before.statuses.skip(i + 1));
            let ghost kept_before = kept@;
            if status != MTLCommandBufferStatus::Completed {
                kept.push(cb);
                assert(kept_before + (seq![cb] + unfinished(io@.statuses, all.skip(i + 1)))
                    =~= kept@ + unfinished(io@.statuses, all.skip(i + 1)));
            }
            i = i + 1;
        }
        assert(all.skip(i as int).len() == 0);
        assert(kept@ + Seq::<CommandBuffer>::empty() =~= kept@);
        self.state.in_flight = kept;
        Ok(())
    }

    /// Hands over the current command buffer, waits for that very buffer, and then forgets those in
    /// flight that are done. Other than `flush_and_wait` it does not depend on who else takes what is
    /// in flight.
    pub fn flush_and_wait_current(&mut self, io: &mut Exchange) -> (r: Result<(), Stop>)
        requires
            old(self).has_names(),
            old(self)@.blit is None,
        ensures
            ({
                let (w, end) = world(*old(self), *old(io)).swap(0);
                if end is Done {
                    let cb = old(self)@.current;
                    let waited = completed(w.io, cb);
                    &&& r is Ok ==> crate::metal::laws::is_done(w.io, final(io)@, cb)
                    &&& if completes(w.io) {
                        &&& final(io)@ == sifted(waited, w.s.in_flight)
                        &&& r is Ok <==> waited.statuses.len() >= w.s.in_flight.len()
                        &&& r matches Err(e) ==> e is Pending && final(self)@ == w.s
                        &&& r is Ok ==> final(self)@ == (Schedule {
                            in_flight: unfinished(waited.statuses, w.s.in_flight),
                            ..w.s
                        })
                    } else {
                        final(self)@ == w.s && final(io)@ == waited && is_completed(w.io, r)
                    }
                } else {
                    is_swap_end(end, r) && world(*final(self), *final(io)) == w
                }
            }),
    {
        let cb = self.flush_returning_handle(io)?;
        let ghost handed_over = io@;
        Commands::ensure_completed(cb, io)?;
        proof {
            crate::metal::laws::lemma_sifted(io@, self@.in_flight);
            crate::metal::laws::lemma_stays_done(
                handed_over,
                io@,
                sifted(io@, self@.in_flight),
                cb,
            );
        }
        self.forget_completed(io)
    }
}

} // verus!
