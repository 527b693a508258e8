//! The device as the scheduler sees it: what it is asked to do, and what it answers.

use vstd::prelude::*;

verus! {

/// A command buffer of the device.
#[derive(Clone, Copy, PartialEq, Eq, Structural)]
pub struct CommandBuffer {
    pub id: u64,
}

/// A fence of the device.
#[derive(Clone, Copy, PartialEq, Eq, Structural)]
pub struct Fence {
    pub id: u64,
}

/// A compute encoder of the device, and the fence that it signals when it ends.
#[derive(Clone, Copy, PartialEq, Eq, Structural)]
pub struct ComputeCommandEncoder {
    pub id: u64,
    pub fence: Fence,
}

/// A blit encoder of the device, and the fence that it signals when it ends.
#[derive(Clone, Copy, PartialEq, Eq, Structural)]
pub struct BlitCommandEncoder {
    pub id: u64,
    pub fence: Fence,
}

/// A buffer of the device.
#[derive(Clone, Copy, PartialEq, Eq, Structural)]
pub struct Buffer {
    pub id: u64,
}

/// A compute pipeline of the device.
#[derive(Clone, Copy, PartialEq, Eq, Structural)]
pub struct ComputePipeline {
    pub id: u64,
}

/// How far a command buffer has come.
#[derive(Clone, Copy, PartialEq, Eq, Structural)]
pub enum MTLCommandBufferStatus {
    NotEnqueued,
    Enqueued,
    Committed,
    Scheduled,
    Completed,
    Error,
}

/// What can go wrong.
pub enum MetalKernelError {
    /// The device did not make a resource of this kind.
    FailedToCreateResource(String),
    /// The device failed on a command buffer.
    CommandBufferError(String),
}

/// Why an operation ended early.
pub enum Stop {
    /// An answer of the device is missing.
    Pending,
    Failed(MetalKernelError),
}

/// What is to be done with the device. The last three are questions.
pub enum Action {
    /// Make the queue keep its residency set.
    AddResidencySet,
    NewFence(Fence),
    BeginCompute { on: CommandBuffer, compute: ComputeCommandEncoder },
    BeginBlit { on: CommandBuffer, blit: BlitCommandEncoder },
    WaitForFence { encoder: u64, fence: Fence },
    UpdateFence { encoder: u64, fence: Fence },
    EndEncoding { encoder: u64 },
    Commit(CommandBuffer),
    WaitUntilCompleted(CommandBuffer),
    SetLabel { encoder: u64, label: String },
    SetComputePipelineState { encoder: u64, pipeline: ComputePipeline },
    PushDebugGroup { encoder: u64, label: String },
    PopDebugGroup { encoder: u64 },
    CopyFromBuffer {
        encoder: u64,
        src: Buffer,
        src_offset: usize,
        dst: Buffer,
        dst_offset: usize,
        size: usize,
    },
    FillBuffer { encoder: u64, target: Buffer, range: (usize, usize), value: u8 },
    /// Make a command buffer under this name.
    Create(CommandBuffer),
    /// How far has a command buffer come?
    AskStatus(CommandBuffer),
    /// What did the device say of a command buffer's failure?
    AskError(CommandBuffer),
}

/// What contracts see of an exchange: what has been written, and the answers that were not taken
/// yet.
#[verifier::ext_equal]
pub ghost struct ExchangeView {
    pub log: Seq<Action>,
    pub statuses: Seq<MTLCommandBufferStatus>,
    pub errors: Seq<Option<Seq<char>>>,
    pub created: Seq<bool>,
}

impl ExchangeView {
    /// Something was written.
    pub open spec fn act(self, a: Action) -> ExchangeView {
        ExchangeView { log: self.log.push(a), ..self }
    }

    /// A question about a status was written, and its answer taken.
    pub open spec fn asked_status(self, cb: CommandBuffer) -> ExchangeView {
        ExchangeView { statuses: self.statuses.drop_first(), ..self.act(Action::AskStatus(cb)) }
    }

    /// A question about an error was written, and its answer taken.
    pub open spec fn asked_error(self, cb: CommandBuffer) -> ExchangeView {
        ExchangeView { errors: self.errors.drop_first(), ..self.act(Action::AskError(cb)) }
    }

    /// A command buffer was asked for, and the answer taken.
    pub open spec fn asked_create(self, cb: CommandBuffer) -> ExchangeView {
        ExchangeView { created: self.created.drop_first(), ..self.act(Action::Create(cb)) }
    }
}

/// What contracts see of an error message that may be absent.
pub open spec fn text_view(text: Option<String>) -> Option<Seq<char>> {
    match text {
        Some(text) => Some(text@),
        None => None,
    }
}

/// What an operation writes for the device, and the device's answers.
pub struct Exchange {
    actions: Vec<Action>,
    statuses: Vec<MTLCommandBufferStatus>,
    errors: Vec<Option<String>>,
    created: Vec<bool>,
}

impl Exchange {
    /// What contracts see.
    pub closed spec fn view(&self) -> ExchangeView {
        ExchangeView {
            log: self.actions@,
            statuses: self.statuses@,
            errors: self.errors@.map_values(|e: Option<String>| text_view(e)),
            created: self.created@,
        }
    }

    /// An exchange with the answers that are there so far.
    pub fn new(
        statuses: Vec<MTLCommandBufferStatus>,
        errors: Vec<Option<String>>,
        created: Vec<bool>,
    ) -> (r: Exchange)
        ensures
            r@ == (ExchangeView {
                log: Seq::empty(),
                statuses: statuses@,
                errors: errors@.map_values(|e: Option<String>| text_view(e)),
                created: created@,
            }),
    {
        Exchange { actions: Vec::new(), statuses, errors, created }
    }

    /// What has been written, in order.
    pub fn actions(&self) -> (r: &Vec<Action>)
        ensures
            r@ == self@.log,
    {
        &self.actions
    }

    /// Writes something.
    pub(crate) fn act(&mut self, a: Action)
        ensures
            final(self)@ == old(self)@.act(a),
    {
        self.actions.push(a);
    }

    /// Writes several things.
    pub(crate) fn act_all(&mut self, actions: &mut Vec<Action>)
        ensures
            final(self)@ == (ExchangeView { log: old(self)@.log + old(actions)@, ..old(self)@ }),
    {
        self.actions.append(actions);
    }

    /// Asks how far a command buffer has come.
    pub(crate) fn ask_status(&mut self, cb: CommandBuffer) -> (r: Result<MTLCommandBufferStatus, Stop>)
        ensures
            match r {
                Ok(s) => old(self)@.statuses.len() > 0 && s == old(self)@.statuses[0]
                    && final(self)@ == old(self)@.asked_status(cb),
                Err(e) => e is Pending && old(self)@.statuses.len() == 0 && final(self)@ == old(
                    self,
                )@.act(Action::AskStatus(cb)),
            },
    {
        self.act(Action::AskStatus(cb));
        if self.statuses.len() > 0 {
            let s = self.statuses.remove(0);
            assert(self@.statuses =~= old(self)@.statuses.drop_first());
            Ok(s)
        } else {
            Err(Stop::Pending)
        }
    }

    /// Asks what the device said of a command buffer's failure.
    pub(crate) fn ask_error(&mut self, cb: CommandBuffer) -> (r: Result<Option<String>, Stop>)
        ensures
            match r {
                Ok(s) => old(self)@.errors.len() > 0 && text_view(s) == old(self)@.errors[0]
                    && final(self)@ == old(self)@.asked_error(cb),
                Err(e) => e is Pending && old(self)@.errors.len() == 0 && final(self)@ == old(
                    self,
                )@.act(Action::AskError(cb)),
            },
    {
        self.act(Action::AskError(cb));
        if self.errors.len() > 0 {
            let s = self.errors.remove(0);
            assert(self@.errors =~= old(self)@.errors.drop_first());
            Ok(s)
        } else {
            Err(Stop::Pending)
        }
    }

    /// Asks for a command buffer.
    pub(crate) fn ask_create(&mut self, cb: CommandBuffer) -> (r: Result<bool, Stop>)
        ensures
            match r {
                Ok(b) => old(self)@.created.len() > 0 && b == old(self)@.created[0] && final(self)@
                    == old(self)@.asked_create(cb),
                Err(e) => e is Pending && old(self)@.created.len() == 0 && final(self)@ == old(
                    self,
                )@.act(Action::Create(cb)),
            },
    {
        self.act(Action::Create(cb));
        if self.created.len() > 0 {
            let b = self.created.remove(0);
            assert(self@.created =~= old(self)@.created.drop_first());
            Ok(b)
        } else {
            Err(Stop::Pending)
        }
    }
}

} // verus!
