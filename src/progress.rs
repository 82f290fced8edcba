//! Sinks for job progress, such as a desktop notification of a running
//! transaction.
use vstd::prelude::*;

verus! {

/// Something that shows the progress of a job.
pub trait ProgressTracker {
    fn set_percent(&mut self, percent: u32);

    fn set_general_description(&mut self, description: &str);

    fn set_message(&mut self, label: &str, message: &str);

    fn terminate(&mut self, message: &str);
}

/// A tracker that shows nothing.
pub struct DummyTracker;

impl ProgressTracker for DummyTracker {
    fn set_percent(&mut self, percent: u32) {
    }

    fn set_general_description(&mut self, description: &str) {
    }

    fn set_message(&mut self, label: &str, message: &str) {
    }

    fn terminate(&mut self, message: &str) {
    }
}

impl DummyTracker {
    pub fn new() -> (r: Self) {
        DummyTracker
    }
}

/// The tracker in use: the desktop's own when it could be reached, else
/// one that shows nothing.
pub enum BestTracker<T> {
    Desktop(T),
    Dummy(DummyTracker),
}

impl<T: ProgressTracker> ProgressTracker for BestTracker<T> {
    fn set_percent(&mut self, percent: u32) {
        match self {
            BestTracker::Desktop(t) => t.set_percent(percent),
            BestTracker::Dummy(t) => t.set_percent(percent),
        }
    }

    fn set_general_description(&mut self, description: &str) {
        match self {
            BestTracker::Desktop(t) => t.set_general_description(description),
            BestTracker::Dummy(t) => t.set_general_description(description),
        }
    }

    fn set_message(&mut self, label: &str, message: &str) {
        match self {
            BestTracker::Desktop(t) => t.set_message(label, message),
            BestTracker::Dummy(t) => t.set_message(label, message),
        }
    }

    fn terminate(&mut self, message: &str) {
        match self {
            BestTracker::Desktop(t) => t.terminate(message),
            BestTracker::Dummy(t) => t.terminate(message),
        }
    }
}

/// Prefers the desktop tracker, when one could be created.
pub fn select_best_tracker<T>(desktop: Option<T>) -> (r: BestTracker<T>)
    ensures
        match desktop {
            Some(t) => r == BestTracker::Desktop(t),
            None => r is Dummy,
        },
{
    match desktop {
        Some(t) => BestTracker::Desktop(t),
        None => BestTracker::Dummy(DummyTracker::new()),
    }
}

} // verus!
