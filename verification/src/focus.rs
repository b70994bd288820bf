//! The focus-switch protocol: the ordered steps that bring a window to the
//! foreground, as a machine that names the next step and takes its result.
//!
//! The caller performs each step against the window server and reports back;
//! the machine decides what follows. It runs in a single pass, stops at the
//! first failure and undoes nothing.

use vstd::prelude::*;
use crate::record::{key_window_record, record_bytes, Flavor};
use crate::types::{Bounds, Error, Handle, ProcessSerialNumber, Window, WindowView};

verus! {

/// The options of the "set front process" request: bring the process to the
/// foreground without taking focus from unrelated windows.
pub const FRONT_OPTIONS: u32 = 0x200;

/// The status with which the window server reports success.
pub const SUCCESS: i32 = 0;

/// A step for the caller to perform.
#[derive(Clone, Copy, Debug, PartialEq, Eq)]
pub enum Action {
    /// Look up the process serial number of the process.
    ResolveProcess { pid: i32 },
    /// Ask for the process to be brought to the front, with the window as a
    /// hint.
    SetFrontProcess { psn: ProcessSerialNumber, window: u32, options: u32 },
    /// Post the event record to the event queue of the process.
    PostEventRecord { psn: ProcessSerialNumber, record: [u8; 0xf8] },
    /// Ask which space is active now.
    QueryActiveSpace,
    /// Activate the application in the ordinary way.
    Activate { pid: i32 },
    /// Perform the raise action on the window's control object.
    Raise { handle: Handle },
    /// Warp the pointer to the center of the bounds.
    WarpPointer { bounds: Bounds },
}

/// What an `Action` is, with the event record as a sequence of bytes.
pub enum Step {
    ResolveProcess { pid: i32 },
    SetFrontProcess { psn: ProcessSerialNumber, window: u32, options: u32 },
    PostEventRecord { psn: ProcessSerialNumber, record: Seq<u8> },
    QueryActiveSpace,
    Activate { pid: i32 },
    Raise { handle: Handle },
    WarpPointer { bounds: Bounds },
}

impl View for Action {
    type V = Step;

    open spec fn view(&self) -> Step {
        match *self {
            Action::ResolveProcess { pid } => Step::ResolveProcess { pid },
            Action::SetFrontProcess { psn, window, options } => Step::SetFrontProcess {
                psn,
                window,
                options,
            },
            Action::PostEventRecord { psn, record } => Step::PostEventRecord {
                psn,
                record: record@,
            },
            Action::QueryActiveSpace => Step::QueryActiveSpace,
            Action::Activate { pid } => Step::Activate { pid },
            Action::Raise { handle } => Step::Raise { handle },
            Action::WarpPointer { bounds } => Step::WarpPointer { bounds },
        }
    }
}

/// The result of a step, as the caller reports it.
#[derive(Clone, Copy, Debug, PartialEq, Eq)]
pub enum Reply {
    /// The result of `ResolveProcess`: the status of the lookup and what it
    /// wrote.
    Process { status: i32, psn: ProcessSerialNumber },
    /// The status of `SetFrontProcess` or of `PostEventRecord`.
    Status(i32),
    /// The result of `QueryActiveSpace`: the id of the active space.
    ActiveSpace(i64),
    /// `Activate`, `Raise` or `WarpPointer` was performed; how it ended does
    /// not matter.
    Done,
}

/// Where the protocol stands: the step that is pending, or how it ended.
#[derive(Clone, Copy, Debug, PartialEq, Eq)]
pub enum Stage {
    ResolveProcess,
    SetFront,
    KeyDown,
    KeyUp,
    ActiveSpace,
    Activate,
    Raise,
    Warp,
    Finished(Result<(), Error>),
}

/// One focus switch in progress.
pub struct FocusSwitch {
    pid: i32,
    window: u32,
    space: i64,
    handle: Handle,
    bounds: Bounds,
    psn: ProcessSerialNumber,
    active: Option<i64>,
    stage: Stage,
}

/// What a `FocusSwitch` holds: the target, the process serial number once it
/// is known, the active space once it is known, and the stage.
pub struct FocusView {
    pub pid: i32,
    pub window: u32,
    pub space: i64,
    pub handle: Handle,
    pub bounds: Bounds,
    pub psn: ProcessSerialNumber,
    pub active: Option<i64>,
    pub stage: Stage,
}

impl View for FocusSwitch {
    type V = FocusView;

    closed spec fn view(&self) -> FocusView {
        FocusView {
            pid: self.pid,
            window: self.window,
            space: self.space,
            handle: self.handle,
            bounds: self.bounds,
            psn: self.psn,
            active: self.active,
            stage: self.stage,
        }
    }
}

/// The protocol at its start, for a window that has a handle.
pub open spec fn begun(window: WindowView, pid: i32) -> FocusView {
    FocusView {
        pid,
        window: window.id,
        space: window.space.id,
        handle: window.handle.unwrap(),
        bounds: window.bounds,
        psn: ProcessSerialNumber { high_long_of_psn: 0, low_long_of_psn: 0 },
        active: None,
        stage: Stage::ResolveProcess,
    }
}

/// The step that is pending; none once the protocol has ended.
pub open spec fn pending_step(focus: FocusView) -> Option<Step> {
    match focus.stage {
        Stage::ResolveProcess => Some(Step::ResolveProcess { pid: focus.pid }),
        Stage::SetFront => Some(
            Step::SetFrontProcess { psn: focus.psn, window: focus.window, options: FRONT_OPTIONS },
        ),
        Stage::KeyDown => Some(
            Step::PostEventRecord {
                psn: focus.psn,
                record: record_bytes(focus.window, Flavor::Down),
            },
        ),
        Stage::KeyUp => Some(
            Step::PostEventRecord { psn: focus.psn, record: record_bytes(focus.window, Flavor::Up) },
        ),
        Stage::ActiveSpace => Some(Step::QueryActiveSpace),
        Stage::Activate => Some(Step::Activate { pid: focus.pid }),
        Stage::Raise => Some(Step::Raise { handle: focus.handle }),
        Stage::Warp => Some(Step::WarpPointer { bounds: focus.bounds }),
        Stage::Finished(_) => None,
    }
}

/// How the protocol ended; nothing while a step is pending.
pub open spec fn outcome_of(focus: FocusView) -> Option<Result<(), Error>> {
    match focus.stage {
        Stage::Finished(result) => Some(result),
        _ => None,
    }
}

/// The stage after a status: the next one on success, the end with `error`
/// otherwise.
pub open spec fn after_status(status: i32, next: Stage, error: Error) -> Stage {
    if status == SUCCESS {
        next
    } else {
        Stage::Finished(Err(error))
    }
}

/// The protocol after the reply to its pending step. A reply of a kind that
/// does not answer the pending step changes nothing, and neither does any
/// reply once the protocol has ended.
pub open spec fn advanced(focus: FocusView, reply: Reply) -> FocusView {
    match (focus.stage, reply) {
        (Stage::ResolveProcess, Reply::Process { status, psn }) => if status == SUCCESS {
            FocusView { psn, stage: Stage::SetFront, ..focus }
        } else {
            FocusView { stage: Stage::Finished(Err(Error::ProcessResolutionFailed)), ..focus }
        },
        (Stage::SetFront, Reply::Status(status)) => FocusView {
            stage: after_status(status, Stage::KeyDown, Error::FrontProcessFailed),
            ..focus
        },
        (Stage::KeyDown, Reply::Status(status)) => FocusView {
            stage: after_status(status, Stage::KeyUp, Error::KeyWindowFailed),
            ..focus
        },
        (Stage::KeyUp, Reply::Status(status)) => FocusView {
            stage: after_status(status, Stage::ActiveSpace, Error::KeyWindowFailed),
            ..focus
        },
        (Stage::ActiveSpace, Reply::ActiveSpace(id)) => FocusView {
            active: Some(id),
            stage: if id == focus.space {
                Stage::Activate
            } else {
                Stage::Raise
            },
            ..focus
        },
        (Stage::Activate, Reply::Done) => FocusView { stage: Stage::Warp, ..focus },
        (Stage::Raise, Reply::Done) => FocusView { stage: Stage::Warp, ..focus },
        (Stage::Warp, Reply::Done) => FocusView { stage: Stage::Finished(Ok(())), ..focus },
        _ => focus,
    }
}

/// The protocol after the first `n` of a sequence of replies.
pub open spec fn run(focus: FocusView, replies: Seq<Reply>, n: int) -> FocusView
    decreases n,
{
    if n <= 0 {
        focus
    } else {
        advanced(run(focus, replies, n - 1), replies[n - 1])
    }
}

impl Window {
    /// Starts the focus switch to this window, which process `pid` owns.
    /// A window without a control handle cannot be focused yet: the call
    /// fails with `Unresolved`, exactly then, and no step is taken.
    pub fn focus(&self, pid: i32) -> (out: Result<FocusSwitch, Error>)
        ensures
            out is Err <==> self.handle is None,
            out matches Err(e) ==> e == Error::Unresolved,
            out matches Ok(focus) ==> focus@ == begun(self@, pid),
    {
        match self.handle {
            None => Err(Error::Unresolved),
            Some(handle) => Ok(
                FocusSwitch {
                    pid,
                    window: self.id,
                    space: self.space.id,
                    handle,
                    bounds: self.bounds,
                    psn: ProcessSerialNumber::default(),
                    active: None,
                    stage: Stage::ResolveProcess,
                },
            ),
        }
    }
}

impl FocusSwitch {
    /// The step to perform now; `None` once the protocol has ended.
    pub fn pending(&self) -> (action: Option<Action>)
        ensures
            action is Some <==> pending_step(self@) is Some,
            action matches Some(a) ==> Some(a@) == pending_step(self@),
    {
        match self.stage {
            Stage::ResolveProcess => Some(Action::ResolveProcess { pid: self.pid }),
            Stage::SetFront => Some(
                Action::SetFrontProcess {
                    psn: self.psn,
                    window: self.window,
                    options: FRONT_OPTIONS,
                },
            ),
            Stage::KeyDown => Some(
                Action::PostEventRecord {
                    psn: self.psn,
                    record: key_window_record(self.window, Flavor::Down),
                },
            ),
            Stage::KeyUp => Some(
                Action::PostEventRecord {
                    psn: self.psn,
                    record: key_window_record(self.window, Flavor::Up),
                },
            ),
            Stage::ActiveSpace => Some(Action::QueryActiveSpace),
            Stage::Activate => Some(Action::Activate { pid: self.pid }),
            Stage::Raise => Some(Action::Raise { handle: self.handle }),
            Stage::Warp => Some(Action::WarpPointer { bounds: self.bounds }),
            Stage::Finished(_) => None,
        }
    }

    /// Takes the result of the pending step and moves on.
    pub fn advance(&mut self, reply: Reply)
        ensures
            final(self)@ == advanced(old(self)@, reply),
    {
        match (self.stage, reply) {
            (Stage::ResolveProcess, Reply::Process { status, psn }) => {
                if status == SUCCESS {
                    self.psn = psn;
                    self.stage = Stage::SetFront;
                } else {
                    self.stage = Stage::Finished(Err(Error::ProcessResolutionFailed));
                }
            },
            (Stage::SetFront, Reply::Status(status)) => {
                self.stage = next_stage(status, Stage::KeyDown, Error::FrontProcessFailed);
            },
            (Stage::KeyDown, Reply::Status(status)) => {
                self.stage = next_stage(status, Stage::KeyUp, Error::KeyWindowFailed);
            },
            (Stage::KeyUp, Reply::Status(status)) => {
                self.stage = next_stage(status, Stage::ActiveSpace, Error::KeyWindowFailed);
            },
            (Stage::ActiveSpace, Reply::ActiveSpace(id)) => {
                self.active = Some(id);
                self.stage = if id == self.space {
                    Stage::Activate
                } else {
                    Stage::Raise
                };
            },
            (Stage::Activate, Reply::Done) => {
                self.stage = Stage::Warp;
            },
            (Stage::Raise, Reply::Done) => {
                self.stage = Stage::Warp;
            },
            (Stage::Warp, Reply::Done) => {
                self.stage = Stage::Finished(Ok(()));
            },
            _ => {},
        }
    }

    /// How the protocol ended; `None` while a step is pending.
    pub fn outcome(&self) -> (out: Option<Result<(), Error>>)
        ensures
            out == outcome_of(self@),
    {
        match self.stage {
            Stage::Finished(result) => Some(result),
            _ => None,
        }
    }
}

/// The stage after a status: the next one on success, the end with `error`
/// otherwise.
fn next_stage(status: i32, next: Stage, error: Error) -> (stage: Stage)
    ensures
        stage == after_status(status, next, error),
{
    if status == SUCCESS {
        next
    } else {
        Stage::Finished(Err(error))
    }
}

/// Whether the pending step is the ordinary activation.
pub open spec fn activates(focus: FocusView) -> bool {
    focus.stage is Activate
}

/// Whether the pending step is the raise through the control handle.
pub open spec fn raises(focus: FocusView) -> bool {
    focus.stage is Raise
}

/// Whether the pending step posts an event record.
pub open spec fn posts(focus: FocusView) -> bool {
    focus.stage is KeyDown || focus.stage is KeyUp
}

/// What holds of every state that a focus switch reaches: the active space is
/// known from the moment it was asked for, activation is pending only on the
/// active space and a raise only on another.
pub open spec fn orderly(focus: FocusView) -> bool {
    &&& activates(focus) ==> focus.active == Some(focus.space)
    &&& raises(focus) ==> focus.active is Some && focus.active != Some(focus.space)
    &&& (focus.stage is ResolveProcess || focus.stage is SetFront || posts(focus)
        || focus.stage is ActiveSpace) ==> focus.active is None
}

/// Once the protocol has ended, no reply moves it and no step is pending: a
/// failure is followed by nothing.
pub proof fn lemma_end_is_final(focus: FocusView, replies: Seq<Reply>, n: int)
    requires
        focus.stage is Finished,
    ensures
        run(focus, replies, n) == focus,
        pending_step(run(focus, replies, n)) is None,
    decreases n,
{
    if n > 0 {
        lemma_end_is_final(focus, replies, n - 1);
    }
}

/// A reply keeps the target, and keeps the active space once it is known.
pub proof fn lemma_advance_keeps(focus: FocusView, reply: Reply)
    ensures
        advanced(focus, reply).pid == focus.pid,
        advanced(focus, reply).window == focus.window,
        advanced(focus, reply).space == focus.space,
        advanced(focus, reply).handle == focus.handle,
        advanced(focus, reply).bounds == focus.bounds,
        orderly(focus) ==> orderly(advanced(focus, reply)),
        orderly(focus) && focus.active is Some ==> advanced(focus, reply).active == focus.active,
{
}

/// Every state of a run from an orderly state is orderly, has the same
/// target, and has the same active space as any earlier state that knew it.
pub proof fn lemma_run_keeps(focus: FocusView, replies: Seq<Reply>, i: int, n: int)
    requires
        orderly(focus),
        0 <= i <= n,
    ensures
        orderly(run(focus, replies, n)),
        run(focus, replies, n).space == focus.space,
        run(focus, replies, i).active is Some ==> run(focus, replies, n).active == run(
            focus,
            replies,
            i,
        ).active,
    decreases n,
{
    if n > 0 {
        if i < n {
            lemma_run_keeps(focus, replies, i, n - 1);
        } else {
            lemma_run_keeps(focus, replies, n - 1, n - 1);
        }
        lemma_advance_keeps(run(focus, replies, n - 1), replies[n - 1]);
    }
}

/// Where the "set front process" step fails, the protocol ends with
/// `FrontProcessFailed`, and whatever is reported afterwards, no step is
/// pending again: no event record is posted, nothing is raised or activated.
pub proof fn lemma_front_failure_ends_all(
    focus: FocusView,
    status: i32,
    replies: Seq<Reply>,
    n: int,
)
    requires
        focus.stage is SetFront,
        status != SUCCESS,
    ensures
        outcome_of(advanced(focus, Reply::Status(status))) == Some(
            Err::<(), Error>(Error::FrontProcessFailed),
        ),
        pending_step(run(advanced(focus, Reply::Status(status)), replies, n)) is None,
{
    lemma_end_is_final(advanced(focus, Reply::Status(status)), replies, n);
}

/// Whatever the replies, a focus switch raises the window through its control
/// handle only when the active space is another than the window's, and
/// activates the application in the ordinary way only when it is the window's.
pub proof fn lemma_raise_only_across_spaces(
    window: WindowView,
    pid: i32,
    replies: Seq<Reply>,
    n: int,
)
    requires
        0 <= n,
    ensures
        ({
            let reached = run(begun(window, pid), replies, n);
            &&& raises(reached) ==> reached.active is Some && reached.active != Some(
                window.space.id,
            )
            &&& activates(reached) ==> reached.active == Some(window.space.id)
        }),
{
    lemma_run_keeps(begun(window, pid), replies, 0, n);
}

/// Whatever the replies, one focus switch never both raises and activates.
pub proof fn lemma_raise_excludes_activate(
    window: WindowView,
    pid: i32,
    replies: Seq<Reply>,
    i: int,
    j: int,
)
    requires
        0 <= i,
        0 <= j,
    ensures
        !(raises(run(begun(window, pid), replies, i)) && activates(
            run(begun(window, pid), replies, j),
        )),
{
    let start = begun(window, pid);
    if i <= j {
        lemma_run_keeps(start, replies, i, j);
        lemma_run_keeps(start, replies, 0, i);
    } else {
        lemma_run_keeps(start, replies, j, i);
        lemma_run_keeps(start, replies, 0, j);
    }
}

/// On the reply that names the active space, the protocol chooses its path:
/// the ordinary activation where the window is on the active space, the raise
/// through the control handle where it is not.
pub proof fn lemma_path_follows_space(focus: FocusView, id: i64)
    requires
        focus.stage is ActiveSpace,
    ensures
        id == focus.space ==> pending_step(advanced(focus, Reply::ActiveSpace(id))) == Some(
            Step::Activate { pid: focus.pid },
        ),
        id != focus.space ==> pending_step(advanced(focus, Reply::ActiveSpace(id))) == Some(
            Step::Raise { handle: focus.handle },
        ),
{
}

} // verus!
