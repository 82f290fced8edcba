//! The signal protocol of one daemon transaction: what each signal does to
//! the drain of a transaction, and what is forwarded to the progress sink.
use vstd::prelude::*;
use crate::pk::{PkError, PkPackage, PkProgress};
use crate::plan::{PackageView, packages_view};

verus! {

/// A signal of a transaction, or the failure of the liveness poll.
pub enum TxSignal {
    /// A package that the operation reports.
    Package(PkPackage),
    /// Progress of one item.
    ItemProgress(PkProgress),
    /// A new overall percentage; above 100 it means "unknown".
    Percentage(u32),
    /// The daemon reports a failure.
    ErrorCode(PkError),
    Finished,
    Destroy,
    /// A signal that no operation here needs.
    Other,
    /// Polling the daemon failed: it is taken for dead.
    PollFailed(String),
}

/// A progress event for the sink of an execution.
#[derive(Debug)]
pub enum PkDisplayProgress {
    /// Individual package progress (package id, status code, percent).
    Package(String, u8, u32),
    /// Overall transaction progress (percent).
    Overall(u32),
    /// The transaction finished cleanly; always the last event.
    Done,
}

/// Why a transaction failed.
pub enum TxError {
    /// The daemon reported an error code with details.
    Daemon(u32, String),
    /// The daemon stopped answering.
    DaemonLost(String),
}

/// Which kind of operation a transaction runs.
#[derive(Clone, Copy, PartialEq, Eq, Structural)]
pub enum TxMode {
    /// Only completion matters (a cache refresh).
    Wait,
    /// Reported packages are collected (resolve, get updates, simulate).
    Collect,
    /// Progress is forwarded (a real install or update).
    Execute,
}

/// Where a drain stands.
#[derive(Clone, Copy, PartialEq, Eq, Structural)]
pub enum DrainState {
    Running,
    Finished,
    Failed,
}

/// What the caller does after one signal.
pub enum TxStep {
    /// Keep waiting for signals.
    Continue,
    /// Send this event to the progress sink, then keep waiting.
    Forward(PkDisplayProgress),
    /// The transaction is over; send the event, if any, to the sink.
    Finish(Option<PkDisplayProgress>),
    /// The operation failed.
    Fail(TxError),
}

/// The drain of one (single-use) transaction.
pub struct TxDrain {
    mode: TxMode,
    state: DrainState,
    packages: Vec<PkPackage>,
}

/// The mathematical value of a [`TxDrain`].
pub struct DrainView {
    pub mode: TxMode,
    pub state: DrainState,
    pub packages: Seq<PackageView>,
}

impl View for TxDrain {
    type V = DrainView;

    closed spec fn view(&self) -> DrainView {
        DrainView { mode: self.mode, state: self.state, packages: packages_view(self.packages@) }
    }
}

/// The event that an item-progress signal gives.
pub open spec fn item_event(id: Seq<char>, status: u32, percentage: u32, e: PkDisplayProgress) -> bool {
    match e {
        PkDisplayProgress::Package(i, s, p) => i@ == id && s == status as u8 && p == percentage,
        _ => false,
    }
}

impl TxDrain {
    /// A drain for a transaction that has not sent anything yet.
    pub fn new(mode: TxMode) -> (r: TxDrain)
        ensures
            r@.mode == mode,
            r@.state == DrainState::Running,
            r@.packages.len() == 0,
    {
        TxDrain { mode, state: DrainState::Running, packages: Vec::new() }
    }

    /// The drain has not reached a terminal state.
    pub fn is_running(&self) -> (r: bool)
        ensures
            r == (self@.state == DrainState::Running),
    {
        self.state == DrainState::Running
    }

    /// Handles one signal, in delivery order. A reported package is kept
    /// when collecting; item progress and overall percentages up to 100 are
    /// forwarded when executing (larger percentages are dropped); an error
    /// code or a failed poll ends the operation with that failure; `Finished`
    /// and `Destroy` end it cleanly, with a final `Done` when executing.
    pub fn step(&mut self, signal: TxSignal) -> (r: TxStep)
        requires
            old(self)@.state == DrainState::Running,
        ensures
            final(self)@.mode == old(self)@.mode,
            match signal {
                TxSignal::Package(p) => {
                    &&& r is Continue
                    &&& final(self)@.state == DrainState::Running
                    &&& final(self)@.packages == if old(self)@.mode == TxMode::Collect {
                        old(self)@.packages.push(p@)
                    } else {
                        old(self)@.packages
                    }
                },
                TxSignal::ItemProgress(x) => {
                    &&& final(self)@ == old(self)@
                    &&& if old(self)@.mode == TxMode::Execute {
                        r matches TxStep::Forward(e) && item_event(x.id@, x.status, x.percentage, e)
                    } else {
                        r is Continue
                    }
                },
                TxSignal::Percentage(v) => {
                    &&& final(self)@ == old(self)@
                    &&& if old(self)@.mode == TxMode::Execute && v <= 100 {
                        r matches TxStep::Forward(e) && e == PkDisplayProgress::Overall(v)
                    } else {
                        r is Continue
                    }
                },
                TxSignal::ErrorCode(e) => {
                    &&& final(self)@.state == DrainState::Failed
                    &&& final(self)@.packages == old(self)@.packages
                    &&& r matches TxStep::Fail(TxError::Daemon(c, d)) && c == e.code && d@
                        == e.details@
                },
                TxSignal::PollFailed(m) => {
                    &&& final(self)@.state == DrainState::Failed
                    &&& final(self)@.packages == old(self)@.packages
                    &&& r matches TxStep::Fail(TxError::DaemonLost(d)) && d@ == m@
                },
                TxSignal::Finished | TxSignal::Destroy => {
                    &&& final(self)@.state == DrainState::Finished
                    &&& final(self)@.packages == old(self)@.packages
                    &&& r matches TxStep::Finish(e) && if old(self)@.mode == TxMode::Execute {
                        e == Some(PkDisplayProgress::Done)
                    } else {
                        e is None
                    }
                },
                TxSignal::Other => {
                    &&& r is Continue
                    &&& final(self)@ == old(self)@
                },
            },
    {
        match signal {
            TxSignal::Package(p) => {
                if self.mode == TxMode::Collect {
                    self.packages.push(p);
                    proof {
                        assert(packages_view(self.packages@) == packages_view(
                            old(self).packages@,
                        ).push(p@));
                    }
                }
                TxStep::Continue
            },
            TxSignal::ItemProgress(x) => {
                if self.mode == TxMode::Execute {
                    TxStep::Forward(PkDisplayProgress::Package(x.id, x.status as u8, x.percentage))
                } else {
                    TxStep::Continue
                }
            },
            TxSignal::Percentage(v) => {
                if self.mode == TxMode::Execute && v <= 100 {
                    TxStep::Forward(PkDisplayProgress::Overall(v))
                } else {
                    TxStep::Continue
                }
            },
            TxSignal::ErrorCode(e) => {
                self.state = DrainState::Failed;
                TxStep::Fail(TxError::Daemon(e.code, e.details))
            },
            TxSignal::PollFailed(m) => {
                self.state = DrainState::Failed;
                TxStep::Fail(TxError::DaemonLost(m))
            },
            TxSignal::Finished | TxSignal::Destroy => {
                self.state = DrainState::Finished;
                if self.mode == TxMode::Execute {
                    TxStep::Finish(Some(PkDisplayProgress::Done))
                } else {
                    TxStep::Finish(None)
                }
            },
            TxSignal::Other => TxStep::Continue,
        }
    }

    /// The packages collected so far, in the order they were reported.
    pub fn into_packages(self) -> (r: Vec<PkPackage>)
        ensures
            packages_view(r@) == self@.packages,
    {
        self.packages
    }
}

} // verus!
