use gemma4::metal::commands::{parse_count, BlitCommandsGuard, Commands, CommandsGuard, EntryState};
use gemma4::metal::exchange::{
    Action, Buffer, CommandBuffer, ComputePipeline, Exchange, MTLCommandBufferStatus,
    MetalKernelError, Stop,
};

/// A device: it notes in order what it is told, and answers what it is asked.
struct Gpu {
    log: Vec<String>,
    committed: Vec<u64>,
    done: Vec<u64>,
    failed: Vec<(u64, Option<String>)>,
    makes_buffers: bool,
}

impl Gpu {
    fn new() -> Gpu {
        Gpu { log: vec![], committed: vec![], done: vec![], failed: vec![], makes_buffers: true }
    }

    fn status(&self, cb: u64) -> MTLCommandBufferStatus {
        if self.failed.iter().any(|(f, _)| *f == cb) {
            MTLCommandBufferStatus::Error
        } else if self.done.contains(&cb) {
            MTLCommandBufferStatus::Completed
        } else if self.committed.contains(&cb) {
            MTLCommandBufferStatus::Committed
        } else {
            MTLCommandBufferStatus::NotEnqueued
        }
    }

    fn act(&mut self, a: &Action) {
        let line = match a {
            Action::AddResidencySet => "residency".to_string(),
            Action::NewFence(f) => format!("fence {}", f.id),
            Action::BeginCompute { on, compute } => format!("compute {} on {}", compute.id, on.id),
            Action::BeginBlit { on, blit } => format!("blit {} on {}", blit.id, on.id),
            Action::WaitForFence { encoder, fence } => format!("{encoder} waits for {}", fence.id),
            Action::UpdateFence { encoder, fence } => format!("{encoder} signals {}", fence.id),
            Action::EndEncoding { encoder } => format!("end {encoder}"),
            Action::Commit(cb) => {
                self.committed.push(cb.id);
                format!("commit {}", cb.id)
            }
            Action::WaitUntilCompleted(cb) => {
                let end = self.committed.iter().position(|c| *c == cb.id).unwrap();
                self.done.extend_from_slice(&self.committed[..=end]);
                format!("wait {}", cb.id)
            }
            Action::SetLabel { encoder, label } => format!("{encoder} label {label}"),
            Action::SetComputePipelineState { encoder, pipeline } => {
                format!("{encoder} pipeline {}", pipeline.id)
            }
            Action::PushDebugGroup { encoder, label } => format!("{encoder} push {label}"),
            Action::PopDebugGroup { encoder } => format!("{encoder} pop"),
            Action::CopyFromBuffer { encoder, src, src_offset, dst, dst_offset, size } => {
                format!("{encoder} copy {}+{src_offset} {}+{dst_offset} {size}", src.id, dst.id)
            }
            Action::FillBuffer { encoder, target, range, value } => {
                format!("{encoder} fill {} {}..{} {value}", target.id, range.0, range.1)
            }
            Action::Create(cb) => format!("create {}", cb.id),
            Action::AskStatus(_) | Action::AskError(_) => return,
        };
        self.log.push(line);
    }

    fn take_log(&mut self) -> Vec<String> {
        std::mem::take(&mut self.log)
    }
}

/// Runs an operation against a device: where an answer is missing, what was asked of the device so
/// far is done and answered, and the operation is run again from where it began.
fn run<T>(
    device: &mut Gpu,
    state: &mut Option<Commands>,
    op: impl Fn(&mut Option<Commands>, &mut Exchange) -> Result<T, Stop>,
) -> Result<T, MetalKernelError> {
    let (mut statuses, mut errors, mut created) = (vec![], vec![], vec![]);
    let mut done = 0;
    loop {
        let mut next = state.clone();
        let mut io = Exchange::new(statuses.clone(), errors.clone(), created.clone());
        let r = op(&mut next, &mut io);
        for a in io.actions().iter().skip(done) {
            device.act(a);
        }
        done = io.actions().len();
        match r {
            Err(Stop::Pending) => match io.actions().last() {
                Some(Action::AskStatus(cb)) => statuses.push(device.status(cb.id)),
                Some(Action::AskError(cb)) => {
                    let text = device.failed.iter().find(|(f, _)| *f == cb.id).unwrap().1.clone();
                    errors.push(text)
                }
                Some(Action::Create(_)) => created.push(device.makes_buffers),
                _ => panic!("nothing was asked"),
            },
            Err(Stop::Failed(e)) => {
                *state = next;
                return Err(e);
            }
            Ok(t) => {
                *state = next;
                return Ok(t);
            }
        }
    }
}

fn start(device: &mut Gpu, setting: Option<&str>, residency: bool) -> Option<Commands> {
    let mut state = None;
    let r = run(device, &mut state, |s, io| {
        *s = Some(Commands::new(setting, residency, io)?);
        Ok(())
    });
    assert!(r.is_ok());
    state
}

fn compute(device: &mut Gpu, state: &mut Option<Commands>) {
    let r = run(device, state, |s, io| {
        let c = s.as_mut().unwrap();
        let guard: CommandsGuard = c.command_encoder(io)?;
        c.release(guard, io);
        Ok(())
    });
    assert!(r.is_ok());
}

fn blit(device: &mut Gpu, state: &mut Option<Commands>) {
    let r = run(device, state, |s, io| {
        let c = s.as_mut().unwrap();
        let guard: BlitCommandsGuard = c.blit_command_encoder(io)?;
        c.end_blit(guard, io);
        Ok(())
    });
    assert!(r.is_ok());
}

#[test]
fn a_scheduler_begins_with_one_command_buffer() {
    let mut d = Gpu::new();
    start(&mut d, None, true);
    assert_eq!(d.take_log(), ["residency", "create 0"]);
    start(&mut d, None, false);
    assert_eq!(d.take_log(), ["create 0"]);
    let state = EntryState::new(CommandBuffer { id: 4 });
    assert_eq!(state.current.id, 4);
    assert!(state.in_flight.is_empty() && state.current_encoder.is_none());
}

#[test]
fn compute_work_shares_an_encoder() {
    let mut d = Gpu::new();
    let mut s = start(&mut d, None, false);
    d.take_log();
    compute(&mut d, &mut s);
    assert_eq!(d.take_log(), ["fence 1", "compute 2 on 0"]);
    compute(&mut d, &mut s);
    assert_eq!(d.take_log(), Vec::<String>::new());
}

#[test]
fn each_encoder_waits_for_the_one_before() {
    let mut d = Gpu::new();
    let mut s = start(&mut d, None, false);
    d.take_log();
    compute(&mut d, &mut s);
    blit(&mut d, &mut s);
    compute(&mut d, &mut s);
    assert_eq!(
        d.take_log(),
        [
            "fence 1",
            "compute 2 on 0",
            "2 signals 1",
            "end 2",
            "fence 3",
            "blit 4 on 0",
            "4 waits for 1",
            "4 signals 3",
            "end 4",
            "fence 5",
            "compute 6 on 0",
            "6 waits for 3",
        ]
    );
}

#[test]
fn the_chain_goes_over_command_buffers() {
    let mut d = Gpu::new();
    let mut s = start(&mut d, Some("2"), false);
    d.take_log();
    compute(&mut d, &mut s);
    compute(&mut d, &mut s);
    d.take_log();
    compute(&mut d, &mut s);
    assert_eq!(
        d.take_log(),
        [
            "2 signals 1",
            "end 2",
            "commit 0",
            "create 3",
            "fence 4",
            "compute 5 on 3",
            "5 waits for 1",
        ]
    );
    compute(&mut d, &mut s);
    assert_eq!(d.take_log(), Vec::<String>::new());
    blit(&mut d, &mut s);
    let log = d.take_log();
    assert_eq!(log[..4], ["5 signals 4", "end 5", "commit 3", "create 6"]);
    assert_eq!(log[6], "8 waits for 4");
}

#[test]
fn a_flush_without_work_does_nothing() {
    let mut d = Gpu::new();
    let mut s = start(&mut d, None, false);
    d.take_log();
    assert!(run(&mut d, &mut s, |s, io| s.as_mut().unwrap().flush(io)).is_ok());
    assert_eq!(d.take_log(), Vec::<String>::new());
    compute(&mut d, &mut s);
    d.take_log();
    assert!(run(&mut d, &mut s, |s, io| s.as_mut().unwrap().flush(io)).is_ok());
    assert_eq!(d.take_log(), ["2 signals 1", "end 2", "commit 0", "create 3"]);
    assert!(run(&mut d, &mut s, |s, io| s.as_mut().unwrap().flush(io)).is_ok());
    assert_eq!(d.take_log(), Vec::<String>::new());
}

#[test]
fn waiting_for_the_last_waits_for_all() {
    let mut d = Gpu::new();
    let mut s = start(&mut d, Some("1"), false);
    for _ in 0..3 {
        compute(&mut d, &mut s);
    }
    d.take_log();
    assert!(run(&mut d, &mut s, |s, io| s.as_mut().unwrap().wait_until_completed(io)).is_ok());
    let log = d.take_log();
    assert_eq!(log.iter().filter(|l| l.starts_with("wait ")).count(), 1);
    assert_eq!(d.done.len(), 3);
    assert!(run(&mut d, &mut s, |s, io| s.as_mut().unwrap().flush_and_wait(io)).is_ok());
    assert_eq!(d.take_log(), Vec::<String>::new());
}

#[test]
fn an_earlier_failure_is_reported() {
    let mut d = Gpu::new();
    let mut s = start(&mut d, Some("1"), false);
    compute(&mut d, &mut s);
    compute(&mut d, &mut s);
    d.failed.push((0, Some("page fault".to_string())));
    match run(&mut d, &mut s, |s, io| s.as_mut().unwrap().flush_and_wait(io)) {
        Err(MetalKernelError::CommandBufferError(text)) => assert_eq!(text, "page fault"),
        _ => panic!("not reported"),
    }
}

#[test]
fn a_failure_without_a_message_is_unknown() {
    let mut d = Gpu::new();
    let mut s = start(&mut d, None, false);
    compute(&mut d, &mut s);
    d.failed.push((0, None));
    match run(&mut d, &mut s, |s, io| s.as_mut().unwrap().flush_and_wait_current(io)) {
        Err(MetalKernelError::CommandBufferError(text)) => assert_eq!(text, "unknown error"),
        _ => panic!("not reported"),
    }
}

#[test]
fn a_device_that_makes_no_buffer_is_reported() {
    let mut d = Gpu::new();
    let mut s = start(&mut d, None, false);
    compute(&mut d, &mut s);
    d.makes_buffers = false;
    match run(&mut d, &mut s, |s, io| s.as_mut().unwrap().flush(io)) {
        Err(MetalKernelError::FailedToCreateResource(kind)) => assert_eq!(kind, "CommandBuffer"),
        _ => panic!("not reported"),
    }
    let mut none = None;
    let r = run(&mut d, &mut none, |s, io| {
        *s = Some(Commands::new(None, false, io)?);
        Ok(())
    });
    assert!(matches!(r, Err(MetalKernelError::FailedToCreateResource(_))));
}

#[test]
fn a_readback_waits_for_its_own_buffer() {
    let mut d = Gpu::new();
    let mut s = start(&mut d, None, false);
    compute(&mut d, &mut s);
    let taken = run(&mut d, &mut s, |s, io| s.as_mut().unwrap().flush_and_take(io));
    match taken {
        Ok(taken) => assert_eq!(taken.len(), 1),
        Err(_) => panic!("not taken"),
    }
    compute(&mut d, &mut s);
    d.take_log();
    assert!(run(&mut d, &mut s, |s, io| s.as_mut().unwrap().flush_and_wait_current(io)).is_ok());
    assert_eq!(d.take_log(), ["5 signals 4", "end 5", "commit 3", "create 6", "wait 3"]);
    assert!(d.done.contains(&3));
    assert!(s.as_ref().unwrap().in_flight().is_empty());
    assert!(s.as_ref().unwrap().is_ready());
    let left = run(&mut d, &mut s, |s, io| s.as_mut().unwrap().flush_and_take(io));
    match left {
        Ok(left) => assert!(left.is_empty()),
        Err(_) => panic!("not taken"),
    }
}

#[test]
fn a_handle_stands_for_everything_before_it() {
    let mut d = Gpu::new();
    let mut s = start(&mut d, None, false);
    compute(&mut d, &mut s);
    let first = run(&mut d, &mut s, |s, io| s.as_mut().unwrap().flush_returning_handle(io));
    let again = run(&mut d, &mut s, |s, io| s.as_mut().unwrap().flush_returning_handle(io));
    let (first, again) = match (first, again) {
        (Ok(a), Ok(b)) => (a, b),
        _ => panic!("no handle"),
    };
    assert_eq!((first.id, again.id), (0, 3));
    d.take_log();
    assert!(run(&mut d, &mut s, |_, io| Commands::ensure_completed(first, io)).is_ok());
    assert_eq!(d.take_log(), ["wait 0"]);
    assert!(run(&mut d, &mut s, |_, io| Commands::ensure_completed(first, io)).is_ok());
    assert_eq!(d.take_log(), Vec::<String>::new());
    let fresh = CommandBuffer { id: 77 };
    assert!(run(&mut d, &mut s, |_, io| Commands::ensure_completed(fresh, io)).is_ok());
    assert_eq!(d.take_log(), ["commit 77", "wait 77"]);
    let both = vec![first, again];
    assert!(run(&mut d, &mut s, |_, io| Commands::wait_for_all(&both, io)).is_ok());
    assert!(run(&mut d, &mut s, |s, io| s.as_mut().unwrap().forget_completed(io)).is_ok());
}

#[test]
fn recorded_calls_are_made_in_order() {
    let mut d = Gpu::new();
    let mut s = start(&mut d, None, false);
    d.take_log();
    let r = run(&mut d, &mut s, |s, io| {
        let c = s.as_mut().unwrap();
        let mut guard = c.command_encoder(io)?;
        assert_eq!(guard.as_ref().id, 2);
        guard.set_label("softmax");
        guard.set_compute_pipeline_state(&ComputePipeline { id: 9 });
        let group = guard.debug_group("inner");
        guard.end_debug_group(group);
        c.release(guard, io);
        let mut guard = c.blit_command_encoder(io)?;
        assert_eq!(guard.as_ref().fence.id, 3);
        guard.set_label("copy");
        guard.copy_from_buffer(&Buffer { id: 1 }, 4, &Buffer { id: 2 }, 8, 16);
        guard.fill_buffer(&Buffer { id: 2 }, (0, 32), 255);
        c.end_blit(guard, io);
        Ok(())
    });
    assert!(r.is_ok());
    assert_eq!(
        d.take_log(),
        [
            "fence 1",
            "compute 2 on 0",
            "2 label softmax",
            "2 pipeline 9",
            "2 push inner",
            "2 pop",
            "2 signals 1",
            "end 2",
            "fence 3",
            "blit 4 on 0",
            "4 waits for 1",
            "4 label copy",
            "4 copy 1+4 2+8 16",
            "4 fill 2 0..32 255",
            "4 signals 3",
            "end 4",
        ]
    );
}

#[test]
fn settings_are_read_as_counts() {
    assert_eq!(parse_count("50"), Some(50));
    assert_eq!(parse_count("+7"), Some(7));
    assert_eq!(parse_count("007"), Some(7));
    assert_eq!(parse_count(&usize::MAX.to_string()), Some(usize::MAX));
    for text in ["", "+", "-1", " 1", "1 ", "1_0", "x", "18446744073709551616", "٣"] {
        assert_eq!(parse_count(text), None);
        assert_eq!(text.parse::<usize>().ok(), None);
    }
    let mut d = Gpu::new();
    let mut s = start(&mut d, Some("many"), false);
    for _ in 0..50 {
        compute(&mut d, &mut s);
    }
    assert!(d.committed.is_empty());
    compute(&mut d, &mut s);
    assert_eq!(d.committed, [0]);
}

#[test]
fn no_command_buffer_serves_more_than_its_limit() {
    for (setting, limit) in [("0", 1), ("1", 1), ("3", 3)] {
        let mut d = Gpu::new();
        let mut s = start(&mut d, Some(setting), false);
        let mut served: Vec<usize> = Vec::new();
        let mut current = 1;
        for i in 0..20 {
            d.take_log();
            if i % 4 == 3 {
                blit(&mut d, &mut s);
            } else {
                compute(&mut d, &mut s);
            }
            if d.take_log().iter().any(|l| l.starts_with("create")) || i == 0 {
                served.push(0);
                current = served.len();
            }
            served[current - 1] += 1;
        }
        assert!(served.iter().all(|n| *n <= limit));
        assert_eq!(served.iter().sum::<usize>(), 20);
        assert_eq!(served[0], limit);
    }
}

#[test]
fn what_is_taken_is_no_longer_in_flight() {
    let mut d = Gpu::new();
    let mut s = start(&mut d, Some("1"), false);
    compute(&mut d, &mut s);
    compute(&mut d, &mut s);
    let taken = match run(&mut d, &mut s, |s, io| s.as_mut().unwrap().flush_and_take(io)) {
        Ok(taken) => taken,
        Err(_) => panic!("not flushed"),
    };
    let order: Vec<u64> = taken.iter().map(|cb| cb.id).collect();
    assert_eq!(order, [0, 3]);
    assert!(s.as_ref().unwrap().in_flight().is_empty());
    assert!(s.as_ref().unwrap().is_ready());
    blit(&mut d, &mut s);
    assert!(d.take_log().iter().any(|l| l.ends_with("waits for 4")));
}
