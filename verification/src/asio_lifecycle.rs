//! The order in which the control thread of an ASIO stream builds the stream up
//! and takes it down, whatever fails on the way.

use vstd::prelude::*;

use crate::error::EngineError;
use crate::text::{decimal, push_decimal, push_signed, signed_decimal};

verus! {

/// What the control thread does next.
#[derive(Clone, Copy, PartialEq, Eq, Debug, Structural)]
pub enum Step {
    /// Enter the apartment.
    InitCom,
    /// Pick a driver.
    Pick,
    /// Load the driver.
    Create,
    /// Initialise the driver.
    InitDriver,
    /// Set the rate, read what the driver states and plan the session.
    Configure,
    /// Ask the driver for its buffers.
    CreateBuffers,
    /// Build the runtime and let the callbacks find it.
    Publish,
    /// Start the driver.
    Start,
    /// Ask the driver for the text of its error.
    ReadError,
    /// Report the negotiated parameters.
    ReportInfo,
    /// Wait for the order to stop.
    Park,
    /// Stop the driver.
    StopDriver,
    /// Hide the runtime from the callbacks.
    Unpublish,
    /// Let a callback that is under way finish.
    Settle,
    /// Free the runtime.
    DropRuntime,
    /// Give back the driver's buffers.
    DisposeBuffers,
    /// Unload the driver.
    Release,
    /// Report the error.
    ReportError,
    /// Leave the apartment.
    UninitCom,
    /// Let the next stream in.
    FreeSlot,
    Finished,
}

/// Where the build-up failed.
#[derive(Clone, Copy, PartialEq, Eq, Debug, Structural)]
pub enum Failure {
    /// No driver was found.
    Pick,
    /// The driver could not be loaded.
    Create,
    /// The driver could not be initialised.
    InitDriver,
    /// The driver gave no buffers.
    CreateBuffers,
    /// The driver did not start.
    Start,
}

/// The control thread between two steps.
#[derive(Clone, Copy, PartialEq, Eq, Debug, Structural)]
pub struct Control {
    pub step: Step,
    pub failure: Option<Failure>,
}

impl Control {
    pub open spec fn spec_new() -> Self {
        Control { step: Step::InitCom, failure: None }
    }

    /// The step that follows when the build-up fails here.
    pub open spec fn after_failure(f: Failure) -> Step {
        match f {
            Failure::Pick | Failure::Create => Step::ReportError,
            _ => Step::ReadError,
        }
    }

    /// What follows a step, by whether the step worked out.
    pub open spec fn after(self, ok: bool) -> Control {
        let failed = |f: Failure|
            Control { step: Self::after_failure(f), failure: Some(f) };
        let to = |step: Step| Control { step, ..self };
        match self.step {
            Step::InitCom => to(Step::Pick),
            Step::Pick => if ok {
                to(Step::Create)
            } else {
                failed(Failure::Pick)
            },
            Step::Create => if ok {
                to(Step::InitDriver)
            } else {
                failed(Failure::Create)
            },
            Step::InitDriver => if ok {
                to(Step::Configure)
            } else {
                failed(Failure::InitDriver)
            },
            Step::Configure => to(Step::CreateBuffers),
            Step::CreateBuffers => if ok {
                to(Step::Publish)
            } else {
                failed(Failure::CreateBuffers)
            },
            Step::Publish => to(Step::Start),
            Step::Start => if ok {
                to(Step::ReportInfo)
            } else {
                failed(Failure::Start)
            },
            Step::ReadError => if self.failure == Some(Failure::Start) {
                to(Step::Unpublish)
            } else {
                to(Step::Release)
            },
            Step::ReportInfo => to(Step::Park),
            Step::Park => to(Step::StopDriver),
            Step::StopDriver => to(Step::Unpublish),
            Step::Unpublish => if self.failure is Some {
                to(Step::DropRuntime)
            } else {
                to(Step::Settle)
            },
            Step::Settle => to(Step::DisposeBuffers),
            Step::DropRuntime => if self.failure is Some {
                to(Step::DisposeBuffers)
            } else {
                to(Step::UninitCom)
            },
            Step::DisposeBuffers => to(Step::Release),
            Step::Release => if self.failure is Some {
                to(Step::ReportError)
            } else {
                to(Step::DropRuntime)
            },
            Step::ReportError => to(Step::UninitCom),
            Step::UninitCom => to(Step::FreeSlot),
            Step::FreeSlot => to(Step::Finished),
            Step::Finished => to(Step::Finished),
        }
    }

    /// A control thread that has done nothing yet.
    pub fn new() -> (r: Self)
        ensures
            r == Control::spec_new(),
    {
        Control { step: Step::InitCom, failure: None }
    }

    fn go(&mut self, step: Step)
        ensures
            *final(self) == (Control { step, ..*old(self) }),
    {
        self.step = step;
    }

    fn fail(&mut self, f: Failure)
        ensures
            *final(self) == (Control { step: Self::after_failure(f), failure: Some(f) }),
    {
        self.failure = Some(f);
        self.step = match f {
            Failure::Pick | Failure::Create => Step::ReportError,
            _ => Step::ReadError,
        };
    }

    /// Takes in how the present step went, and moves on to the next.
    pub fn done(&mut self, ok: bool)
        ensures
            *final(self) == old(self).after(ok),
    {
        match self.step {
            Step::InitCom => self.go(Step::Pick),
            Step::Pick => {
                if ok {
                    self.go(Step::Create)
                } else {
                    self.fail(Failure::Pick)
                }
            },
            Step::Create => {
                if ok {
                    self.go(Step::InitDriver)
                } else {
                    self.fail(Failure::Create)
                }
            },
            Step::InitDriver => {
                if ok {
                    self.go(Step::Configure)
                } else {
                    self.fail(Failure::InitDriver)
                }
            },
            Step::Configure => self.go(Step::CreateBuffers),
            Step::CreateBuffers => {
                if ok {
                    self.go(Step::Publish)
                } else {
                    self.fail(Failure::CreateBuffers)
                }
            },
            Step::Publish => self.go(Step::Start),
            Step::Start => {
                if ok {
                    self.go(Step::ReportInfo)
                } else {
                    self.fail(Failure::Start)
                }
            },
            Step::ReadError => {
                if self.failure == Some(Failure::Start) {
                    self.go(Step::Unpublish)
                } else {
                    self.go(Step::Release)
                }
            },
            Step::ReportInfo => self.go(Step::Park),
            Step::Park => self.go(Step::StopDriver),
            Step::StopDriver => self.go(Step::Unpublish),
            Step::Unpublish => {
                if self.failure.is_some() {
                    self.go(Step::DropRuntime)
                } else {
                    self.go(Step::Settle)
                }
            },
            Step::Settle => self.go(Step::DisposeBuffers),
            Step::DropRuntime => {
                if self.failure.is_some() {
                    self.go(Step::DisposeBuffers)
                } else {
                    self.go(Step::UninitCom)
                }
            },
            Step::DisposeBuffers => self.go(Step::Release),
            Step::Release => {
                if self.failure.is_some() {
                    self.go(Step::ReportError)
                } else {
                    self.go(Step::DropRuntime)
                }
            },
            Step::ReportError => self.go(Step::UninitCom),
            Step::UninitCom => self.go(Step::FreeSlot),
            Step::FreeSlot => self.go(Step::Finished),
            Step::Finished => self.go(Step::Finished),
        }
    }
}

/// The error to report. `code` is what the driver returned, `text` its own words
/// for it; `loading` is the system's error where the driver could not be loaded.
pub fn failure_error(f: Failure, code: i32, text: &str, loading: EngineError) -> (r: EngineError)
    ensures
        match f {
            Failure::Pick => r is NoDevice,
            Failure::Create => r == loading,
            Failure::InitDriver => r matches EngineError::Backend(s) && s@
                == "ASIO init failed: "@ + text@,
            Failure::CreateBuffers => r matches EngineError::Backend(s) && s@
                == "ASIO createBuffers failed ("@ + signed_decimal(code as int) + "): "@ + text@,
            Failure::Start => r matches EngineError::Backend(s) && s@ == "ASIO start failed: "@
                + text@,
        },
{
    match f {
        Failure::Pick => EngineError::NoDevice,
        Failure::Create => loading,
        Failure::InitDriver => {
            let mut s = "ASIO init failed: ".to_owned();
            s.append(text);
            EngineError::Backend(s)
        },
        Failure::CreateBuffers => {
            let mut s = "ASIO createBuffers failed (".to_owned();
            push_signed(&mut s, code);
            s.append("): ");
            s.append(text);
            EngineError::Backend(s)
        },
        Failure::Start => {
            let mut s = "ASIO start failed: ".to_owned();
            s.append(text);
            EngineError::Backend(s)
        },
    }
}

/// What the control thread holds, and how often it has reported.
pub struct Held {
    pub slot: bool,
    pub com: bool,
    pub driver: bool,
    pub buffers: bool,
    pub runtime: bool,
    pub published: bool,
    pub running: bool,
    pub reports: nat,
}

/// What the thread holds when it starts: the one slot for a stream.
pub open spec fn held_at_start() -> Held {
    Held {
        slot: true,
        com: false,
        driver: false,
        buffers: false,
        runtime: false,
        published: false,
        running: false,
        reports: 0,
    }
}

/// What the thread holds after a step.
pub open spec fn held_after(h: Held, step: Step, ok: bool) -> Held {
    match step {
        Step::InitCom => Held { com: true, ..h },
        Step::Create => Held { driver: ok, ..h },
        Step::CreateBuffers => Held { buffers: ok, ..h },
        Step::Publish => Held { runtime: true, published: true, ..h },
        Step::Start => Held { running: ok, ..h },
        Step::ReportInfo | Step::ReportError => Held { reports: h.reports + 1, ..h },
        Step::StopDriver => Held { running: false, ..h },
        Step::Unpublish => Held { published: false, ..h },
        Step::DropRuntime => Held { runtime: false, ..h },
        Step::DisposeBuffers => Held { buffers: false, ..h },
        Step::Release => Held { driver: false, ..h },
        Step::UninitCom => Held { com: false, ..h },
        Step::FreeSlot => Held { slot: false, ..h },
        _ => h,
    }
}

/// The books: what a thread that has come to `c` holds.
pub open spec fn books(c: Control) -> Held {
    let failed = c.failure is Some;
    let started = c.failure == Some(Failure::Start);
    let none = Held {
        slot: true,
        com: true,
        driver: false,
        buffers: false,
        runtime: false,
        published: false,
        running: false,
        reports: if failed {
            0
        } else {
            1
        },
    };
    match c.step {
        Step::InitCom => held_at_start(),
        Step::Pick | Step::Create => Held { reports: 0, ..none },
        Step::InitDriver | Step::Configure | Step::CreateBuffers => Held {
            driver: true,
            reports: 0,
            ..none
        },
        Step::Publish => Held { driver: true, buffers: true, reports: 0, ..none },
        Step::Start => Held {
            driver: true,
            buffers: true,
            runtime: true,
            published: true,
            reports: 0,
            ..none
        },
        Step::ReadError => Held {
            driver: true,
            buffers: started,
            runtime: started,
            published: started,
            ..none
        },
        Step::ReportInfo => Held {
            driver: true,
            buffers: true,
            runtime: true,
            published: true,
            running: true,
            reports: 0,
            ..none
        },
        Step::Park | Step::StopDriver => Held {
            driver: true,
            buffers: true,
            runtime: true,
            published: true,
            running: true,
            ..none
        },
        Step::Unpublish => Held {
            driver: true,
            buffers: true,
            runtime: true,
            published: true,
            ..none
        },
        Step::Settle => Held { driver: true, buffers: true, runtime: true, ..none },
        Step::DisposeBuffers => Held { driver: true, buffers: true, runtime: !failed, ..none },
        Step::Release => Held { driver: true, runtime: !failed, ..none },
        Step::DropRuntime => Held { driver: failed, buffers: failed, runtime: true, ..none },
        Step::ReportError => none,
        Step::UninitCom => Held { reports: 1, ..none },
        Step::FreeSlot => Held { com: false, reports: 1, ..none },
        Step::Finished => Held { slot: false, com: false, reports: 1, ..none },
    }
}

/// Whether a thread can come to `c`: a failure is noted from where it happened
/// on, and an error is read and reported only after one.
pub open spec fn reachable(c: Control) -> bool {
    match c.step {
        Step::InitCom
        | Step::Pick
        | Step::Create
        | Step::InitDriver
        | Step::Configure
        | Step::CreateBuffers
        | Step::Publish
        | Step::Start
        | Step::ReportInfo
        | Step::Park
        | Step::StopDriver
        | Step::Settle => c.failure is None,
        Step::ReadError => c.failure == Some(Failure::InitDriver) || c.failure == Some(
            Failure::CreateBuffers,
        ) || c.failure == Some(Failure::Start),
        Step::Unpublish | Step::DropRuntime | Step::DisposeBuffers => c.failure is None
            || c.failure == Some(Failure::Start),
        Step::Release => c.failure != Some(Failure::Pick) && c.failure != Some(Failure::Create),
        Step::ReportError => c.failure is Some,
        Step::UninitCom | Step::FreeSlot | Step::Finished => true,
    }
}

/// The books are right at the start, and every step keeps them right, whether it
/// works out or not.
pub proof fn law_books_stay_right(c: Control, ok: bool)
    requires
        reachable(c),
        c.step != Step::Finished,
    ensures
        reachable(Control::spec_new()),
        books(Control::spec_new()) == held_at_start(),
        reachable(c.after(ok)),
        books(c.after(ok)) == held_after(books(c), c.step, ok),
{
}

/// Whatever failed on the way, a thread that has finished holds nothing, and has
/// reported exactly once.
pub proof fn law_finished_thread_holds_nothing(c: Control)
    requires
        reachable(c),
        c.step == Step::Finished,
    ensures
        books(c) == (Held { slot: false, com: false, reports: 1, ..held_at_start() }),
{
}

/// Nothing is taken away from under what still uses it: the runtime is freed and
/// the buffers are given back only when no callback can find the runtime and the
/// driver does not run, the driver is unloaded only after its buffers were given
/// back, and the apartment is left only after the driver was unloaded.
pub proof fn law_teardown_order_is_safe(c: Control)
    requires
        reachable(c),
    ensures
        c.step == Step::DropRuntime ==> !books(c).published && !books(c).running,
        c.step == Step::DisposeBuffers ==> books(c).driver && !books(c).published && !books(
            c,
        ).running,
        c.step == Step::Release ==> books(c).driver && !books(c).buffers && !books(c).running,
        c.step == Step::UninitCom ==> !books(c).driver && !books(c).runtime,
        c.step == Step::FreeSlot ==> !books(c).com,
        c.step == Step::Park ==> books(c).running && books(c).published,
{
}

/// How many steps are left at most.
pub open spec fn steps_left(c: Control) -> nat {
    match c.step {
        Step::InitCom => 20,
        Step::Pick => 19,
        Step::Create => 18,
        Step::InitDriver => 17,
        Step::Configure => 16,
        Step::CreateBuffers => 15,
        Step::Publish => 14,
        Step::Start => 13,
        Step::ReportInfo => 12,
        Step::Park => 11,
        Step::StopDriver => 10,
        Step::ReadError => 10,
        Step::Unpublish => 9,
        Step::Settle => 8,
        Step::DropRuntime => if c.failure is Some {
            8
        } else {
            3
        },
        Step::DisposeBuffers => 7,
        Step::Release => 6,
        Step::ReportError => 5,
        Step::UninitCom => 2,
        Step::FreeSlot => 1,
        Step::Finished => 0,
    }
}

/// Every step brings the thread closer to its end.
pub proof fn law_every_step_makes_progress(c: Control, ok: bool)
    requires
        reachable(c),
        c.step != Step::Finished,
    ensures
        steps_left(c.after(ok)) < steps_left(c),
{
}

/// What a change of the driver's rate does next.
#[derive(Clone, Copy, PartialEq, Eq, Debug, Structural)]
pub enum RateStep {
    InitCom,
    Pick,
    Create,
    InitDriver,
    /// Ask the driver for the text of its error.
    ReadError,
    /// Ask whether the driver knows the rate.
    Ask,
    /// Set the rate.
    Change,
    /// Read the rate back.
    Get,
    Release,
    UninitCom,
    Finished,
}

/// Where the change of the rate failed.
#[derive(Clone, Copy, PartialEq, Eq, Debug, Structural)]
pub enum RateFailure {
    Pick,
    Create,
    InitDriver,
    Ask,
    Change,
}

/// A change of the driver's rate between two steps.
#[derive(Clone, Copy, PartialEq, Eq, Debug, Structural)]
pub struct RateChange {
    pub step: RateStep,
    pub failure: Option<RateFailure>,
}

impl RateChange {
    pub open spec fn spec_new() -> Self {
        RateChange { step: RateStep::InitCom, failure: None }
    }

    /// What follows a step, by whether the step worked out.
    pub open spec fn after(self, ok: bool) -> RateChange {
        let to = |step: RateStep| RateChange { step, ..self };
        let failed = |step: RateStep, f: RateFailure| RateChange { step, failure: Some(f) };
        match self.step {
            RateStep::InitCom => to(RateStep::Pick),
            RateStep::Pick => if ok {
                to(RateStep::Create)
            } else {
                failed(RateStep::UninitCom, RateFailure::Pick)
            },
            RateStep::Create => if ok {
                to(RateStep::InitDriver)
            } else {
                failed(RateStep::UninitCom, RateFailure::Create)
            },
            RateStep::InitDriver => if ok {
                to(RateStep::Ask)
            } else {
                failed(RateStep::ReadError, RateFailure::InitDriver)
            },
            RateStep::ReadError => to(RateStep::Release),
            RateStep::Ask => if ok {
                to(RateStep::Change)
            } else {
                failed(RateStep::Release, RateFailure::Ask)
            },
            RateStep::Change => if ok {
                to(RateStep::Get)
            } else {
                failed(RateStep::Release, RateFailure::Change)
            },
            RateStep::Get => to(RateStep::Release),
            RateStep::Release => to(RateStep::UninitCom),
            RateStep::UninitCom => to(RateStep::Finished),
            RateStep::Finished => to(RateStep::Finished),
        }
    }

    pub fn new() -> (r: Self)
        ensures
            r == RateChange::spec_new(),
    {
        RateChange { step: RateStep::InitCom, failure: None }
    }

    /// Takes in how the present step went, and moves on to the next.
    pub fn done(&mut self, ok: bool)
        ensures
            *final(self) == old(self).after(ok),
    {
        let (step, failure): (RateStep, Option<RateFailure>) = match self.step {
            RateStep::InitCom => (RateStep::Pick, None),
            RateStep::Pick => {
                if ok {
                    (RateStep::Create, None)
                } else {
                    (RateStep::UninitCom, Some(RateFailure::Pick))
                }
            },
            RateStep::Create => {
                if ok {
                    (RateStep::InitDriver, None)
                } else {
                    (RateStep::UninitCom, Some(RateFailure::Create))
                }
            },
            RateStep::InitDriver => {
                if ok {
                    (RateStep::Ask, None)
                } else {
                    (RateStep::ReadError, Some(RateFailure::InitDriver))
                }
            },
            RateStep::ReadError => (RateStep::Release, None),
            RateStep::Ask => {
                if ok {
                    (RateStep::Change, None)
                } else {
                    (RateStep::Release, Some(RateFailure::Ask))
                }
            },
            RateStep::Change => {
                if ok {
                    (RateStep::Get, None)
                } else {
                    (RateStep::Release, Some(RateFailure::Change))
                }
            },
            RateStep::Get => (RateStep::Release, None),
            RateStep::Release => (RateStep::UninitCom, None),
            RateStep::UninitCom => (RateStep::Finished, None),
            RateStep::Finished => (RateStep::Finished, None),
        };
        self.step = step;
        if failure.is_some() {
            self.failure = failure;
        }
    }

    /// Whether the driver is loaded before the present step.
    pub open spec fn holds_driver(self) -> bool {
        match self.step {
            RateStep::InitDriver
            | RateStep::ReadError
            | RateStep::Ask
            | RateStep::Change
            | RateStep::Get
            | RateStep::Release => true,
            _ => false,
        }
    }
}

/// The error to report for a failed change to `rate`; see [`failure_error`].
pub fn rate_error(f: RateFailure, rate: u32, text: &str, loading: EngineError) -> (r: EngineError)
    ensures
        match f {
            RateFailure::Pick => r is NoDevice,
            RateFailure::Create => r == loading,
            RateFailure::InitDriver => r matches EngineError::Backend(s) && s@
                == "ASIO init failed: "@ + text@,
            RateFailure::Ask => r matches EngineError::FormatNotSupported(s) && s@
                == "ASIO driver does not support "@ + decimal(rate as nat) + " Hz"@,
            RateFailure::Change => r matches EngineError::Backend(s) && s@ == "ASIO setSampleRate("@
                + decimal(rate as nat) + ") failed"@,
        },
{
    match f {
        RateFailure::Pick => EngineError::NoDevice,
        RateFailure::Create => loading,
        RateFailure::InitDriver => {
            let mut s = "ASIO init failed: ".to_owned();
            s.append(text);
            EngineError::Backend(s)
        },
        RateFailure::Ask => {
            let mut s = "ASIO driver does not support ".to_owned();
            push_decimal(&mut s, rate as u64);
            s.append(" Hz");
            EngineError::FormatNotSupported(s)
        },
        RateFailure::Change => {
            let mut s = "ASIO setSampleRate(".to_owned();
            push_decimal(&mut s, rate as u64);
            s.append(") failed");
            EngineError::Backend(s)
        },
    }
}

/// A change of the rate unloads the driver that it loaded, and only that: every
/// step but loading and unloading leaves the driver where it is.
pub proof fn law_rate_change_unloads_driver(c: RateChange, ok: bool)
    requires
        c.step != RateStep::Finished,
    ensures
        c.after(ok).holds_driver() == match c.step {
            RateStep::Create => ok,
            RateStep::Release => false,
            _ => c.holds_driver(),
        },
{
}

/// A stream is built up step by step, and each step only after the one that it needs
/// has worked out: the driver is loaded after it was picked, initialised after it was
/// loaded, configured after that, and so on, until the parameters are reported and the
/// thread waits.
pub proof fn law_build_up_goes_step_by_step(c: Control, ok: bool)
    ensures
        c.after(ok).step is Pick ==> c.step is InitCom,
        c.after(ok).step is Create ==> c.step is Pick && ok,
        c.after(ok).step is InitDriver ==> c.step is Create && ok,
        c.after(ok).step is Configure ==> c.step is InitDriver && ok,
        c.after(ok).step is CreateBuffers ==> c.step is Configure,
        c.after(ok).step is Publish ==> c.step is CreateBuffers && ok,
        c.after(ok).step is Start ==> c.step is Publish,
        c.after(ok).step is ReportInfo ==> c.step is Start && ok,
        c.after(ok).step is Park ==> c.step is ReportInfo,
        c.after(ok).step is StopDriver ==> c.step is Park,
        c.after(ok).step is Settle ==> c.step is Unpublish,
{
}

/// A failure is noted where it happens and kept: a step of the build-up that fails is
/// what the thread reports, no other step notes one, and the driver is asked for its
/// words only where it is loaded.
pub proof fn law_failure_is_noted_where_it_happens(c: Control, ok: bool)
    requires
        reachable(c),
    ensures
        c.after(ok).failure != c.failure ==> !ok && (match c.step {
            Step::Pick => c.after(ok).failure == Some(Failure::Pick),
            Step::Create => c.after(ok).failure == Some(Failure::Create),
            Step::InitDriver => c.after(ok).failure == Some(Failure::InitDriver),
            Step::CreateBuffers => c.after(ok).failure == Some(Failure::CreateBuffers),
            Step::Start => c.after(ok).failure == Some(Failure::Start),
            _ => false,
        }),
        !ok && (c.step is Pick || c.step is Create || c.step is InitDriver || c.step is CreateBuffers
            || c.step is Start) ==> c.after(ok).failure is Some,
        c.after(ok).step is ReadError ==> books(c.after(ok)).driver,
        c.after(ok).step is ReportError ==> c.after(ok).failure is Some,
{
}

/// The rate is changed only after the driver has said that it knows it, and read back
/// only after it was changed. Whatever fails is noted where it fails, and a change
/// without a failure has gone through every step.
pub proof fn law_rate_is_changed_step_by_step(c: RateChange, ok: bool)
    ensures
        c.after(ok).step is Create ==> c.step is Pick && ok,
        c.after(ok).step is InitDriver ==> c.step is Create && ok,
        c.after(ok).step is Ask ==> c.step is InitDriver && ok,
        c.after(ok).step is Change ==> c.step is Ask && ok,
        c.after(ok).step is Get ==> c.step is Change && ok,
        c.after(ok).step is Release && c.after(ok).failure is None ==> c.step is Get
            || c.step is ReadError,
        c.after(ok).failure != c.failure ==> !ok && (match c.step {
            RateStep::Pick => c.after(ok).failure == Some(RateFailure::Pick),
            RateStep::Create => c.after(ok).failure == Some(RateFailure::Create),
            RateStep::InitDriver => c.after(ok).failure == Some(RateFailure::InitDriver),
            RateStep::Ask => c.after(ok).failure == Some(RateFailure::Ask),
            RateStep::Change => c.after(ok).failure == Some(RateFailure::Change),
            _ => false,
        }),
        !ok && (c.step is Pick || c.step is Create || c.step is InitDriver || c.step is Ask
            || c.step is Change) ==> c.after(ok).failure is Some,
{
}

/// How many steps of a change of the rate are left at most.
pub open spec fn rate_steps_left(c: RateChange) -> nat {
    match c.step {
        RateStep::InitCom => 9,
        RateStep::Pick => 8,
        RateStep::Create => 7,
        RateStep::InitDriver => 6,
        RateStep::Ask => 5,
        RateStep::Change => 4,
        RateStep::Get => 3,
        RateStep::ReadError => 3,
        RateStep::Release => 2,
        RateStep::UninitCom => 1,
        RateStep::Finished => 0,
    }
}

/// A change of the rate comes to its end, and leaves the apartment before it does.
pub proof fn law_rate_change_ends(c: RateChange, ok: bool)
    requires
        c.step != RateStep::Finished,
    ensures
        rate_steps_left(c.after(ok)) < rate_steps_left(c),
        c.after(ok).step is Finished ==> c.step is UninitCom,
        c.after(ok).step is UninitCom ==> !c.after(ok).holds_driver(),
{
}

} // verus!
