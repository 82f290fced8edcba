//! The plan builder as a sequence of daemon transactions: each call says
//! which transaction to run next, and takes what it gave back.
use vstd::prelude::*;
use crate::manifest::{TopicManifest, TopicView, topics_view};
use crate::pk::PkPackage;
use crate::plan::{
    PackageView, PlanError, find_stable_version_of, invalid_at, packages_view, resolved, unresolved,
};
use crate::reconcile::{close_topics, removed_packages};
use crate::text::clone_strings;
use crate::transaction::TxError;

verus! {

/// Where the builder stands.
#[derive(Clone, Copy, PartialEq, Eq, Structural)]
pub enum PlanStage {
    Refreshing,
    Resolving,
    FetchingUpdates,
    Simulating,
    Done,
    Failed,
}

/// What the caller does next, each step on a fresh transaction.
pub enum PlanAction {
    /// Force a cache refresh, wait for it, then read the installed packages.
    RefreshCache,
    /// Resolve these package names.
    Resolve(Vec<String>),
    /// Fetch the newest version of every upgradable package.
    GetUpdates,
    /// Simulate installing these package ids.
    Simulate(Vec<String>),
    /// The plan is ready: the names to hold, and the simulated packages to
    /// classify.
    Finished(Vec<String>, Vec<PkPackage>),
    /// The plan cannot be computed.
    Failed(PlanFailure),
}

/// What the last transaction gave.
pub enum PlanEvent {
    /// The cache was refreshed; these packages are installed.
    Refreshed(Vec<String>),
    /// The candidates that resolving gave.
    Resolved(Vec<PkPackage>),
    /// The upgradable packages.
    Updates(Vec<PkPackage>),
    /// The packages of the simulated transaction.
    Simulated(Vec<PkPackage>),
    /// The transaction failed.
    TxFailed(TxError),
}

/// Why no plan came out.
pub enum PlanFailure {
    Transaction(TxError),
    Plan(PlanError),
    /// An event that does not answer the last action.
    OutOfOrder,
}

/// The state of one plan computation.
pub struct PlanBuilder {
    stage: PlanStage,
    closing: Vec<TopicManifest>,
    removed: Vec<String>,
    hold: Vec<String>,
    found: Vec<String>,
}

/// The mathematical value of a [`PlanBuilder`].
pub struct BuilderView {
    pub stage: PlanStage,
    pub closing: Seq<TopicView>,
    pub removed: Seq<Seq<char>>,
    pub hold: Seq<Seq<char>>,
    pub found: Seq<Seq<char>>,
}

impl View for PlanBuilder {
    type V = BuilderView;

    closed spec fn view(&self) -> BuilderView {
        BuilderView {
            stage: self.stage,
            closing: topics_view(self.closing@),
            removed: self.removed.deep_view(),
            hold: self.hold.deep_view(),
            found: self.found.deep_view(),
        }
    }
}

/// The ids of a list of packages.
pub open spec fn ids_of(ps: Seq<PackageView>) -> Seq<Seq<char>> {
    ps.map_values(|p: PackageView| p.package_id)
}

fn package_ids(ps: &Vec<PkPackage>) -> (r: Vec<String>)
    ensures
        r.deep_view() == ids_of(packages_view(ps@)),
{
    let ghost v = ids_of(packages_view(ps@));
    let mut r: Vec<String> = Vec::new();
    let mut i: usize = 0;
    while i < ps.len()
        invariant
            i <= ps@.len(),
            v == ids_of(packages_view(ps@)),
            r.deep_view() == v.take(i as int),
        decreases ps.len() - i,
    {
        r.push(ps[i].package_id.clone());
        assert(v.take(i + 1) == v.take(i as int).push(v[i as int]));
        i += 1;
    }
    assert(v.take(ps@.len() as int) == v);
    r
}

impl PlanBuilder {
    /// Starts a plan for the topics being closed. With none, the plan is
    /// empty and no transaction runs; else the cache is refreshed first.
    pub fn new(closing: Vec<TopicManifest>) -> (r: (PlanBuilder, PlanAction))
        ensures
            r.0@.closing == topics_view(closing@),
            closing@.len() == 0 ==> (r.0@.stage == PlanStage::Done && (r.1 matches PlanAction::Finished(
                h,
                s,
            ) && h@.len() == 0 && s@.len() == 0)),
            closing@.len() > 0 ==> (r.0@.stage == PlanStage::Refreshing
                && r.1 is RefreshCache),
    {
        let empty = closing.len() == 0;
        let b = PlanBuilder {
            stage: if empty {
                PlanStage::Done
            } else {
                PlanStage::Refreshing
            },
            closing,
            removed: Vec::new(),
            hold: Vec::new(),
            found: Vec::new(),
        };
        if empty {
            (b, PlanAction::Finished(Vec::new(), Vec::new()))
        } else {
            (b, PlanAction::RefreshCache)
        }
    }

    /// The builder waits for the answer to an action.
    pub fn is_waiting(&self) -> (r: bool)
        ensures
            r == (self@.stage != PlanStage::Done && self@.stage != PlanStage::Failed),
    {
        self.stage != PlanStage::Done && self.stage != PlanStage::Failed
    }

    /// Takes what the last transaction gave and says what to do next.
    /// After the refresh, the installed packages of the closing topics are
    /// resolved (skipped when there are none); the stable replacements and
    /// the names without one come out of that; then the upgradable packages
    /// are fetched; the found ids followed by the upgradable ids are
    /// simulated (skipped when there are none). A failed transaction, a
    /// malformed candidate id or an event out of order ends the plan.
    pub fn step(&mut self, event: PlanEvent) -> (r: PlanAction)
        requires
            old(self)@.stage != PlanStage::Done,
            old(self)@.stage != PlanStage::Failed,
        ensures
            final(self)@.closing == old(self)@.closing,
            match (old(self)@.stage, event) {
                (_, PlanEvent::TxFailed(_)) => final(self)@.stage == PlanStage::Failed && (r matches PlanAction::Failed(PlanFailure::Transaction(_))),
                (PlanStage::Refreshing, PlanEvent::Refreshed(installed)) => {
                    let removed = removed_packages(
                        old(self)@.closing,
                        installed.deep_view(),
                        old(self)@.closing.len() as int,
                    );
                    &&& final(self)@.removed == removed
                    &&& if removed.len() == 0 {
                        &&& final(self)@.stage == PlanStage::FetchingUpdates
                        &&& final(self)@.hold.len() == 0
                        &&& final(self)@.found.len() == 0
                        &&& r is GetUpdates
                    } else {
                        &&& final(self)@.stage == PlanStage::Resolving
                        &&& r matches PlanAction::Resolve(names) && names.deep_view() == removed
                    }
                },
                (PlanStage::Resolving, PlanEvent::Resolved(cands)) => {
                    let cv = packages_view(cands@);
                    let n = old(self)@.removed.len() as int;
                    match r {
                        PlanAction::GetUpdates => {
                            &&& final(self)@.stage == PlanStage::FetchingUpdates
                            &&& final(self)@.hold == unresolved(old(self)@.removed, cv, n)
                            &&& final(self)@.found == resolved(old(self)@.removed, cv, n)
                        },
                        PlanAction::Failed(PlanFailure::Plan(e)) => {
                            &&& final(self)@.stage == PlanStage::Failed
                            &&& invalid_at(cv, e)
                        },
                        _ => false,
                    }
                },
                (PlanStage::FetchingUpdates, PlanEvent::Updates(ups)) => {
                    let ids = old(self)@.found + ids_of(packages_view(ups@));
                    &&& final(self)@.hold == old(self)@.hold
                    &&& if ids.len() == 0 {
                        &&& final(self)@.stage == PlanStage::Done
                        &&& r matches PlanAction::Finished(h, s) && h.deep_view() == old(
                            self,
                        )@.hold && s@.len() == 0
                    } else {
                        &&& final(self)@.stage == PlanStage::Simulating
                        &&& r matches PlanAction::Simulate(c) && c.deep_view() == ids
                    }
                },
                (PlanStage::Simulating, PlanEvent::Simulated(steps)) => {
                    &&& final(self)@.stage == PlanStage::Done
                    &&& r matches PlanAction::Finished(h, s) && h.deep_view() == old(self)@.hold
                        && packages_view(s@) == packages_view(steps@)
                },
                _ => final(self)@.stage == PlanStage::Failed && (r matches PlanAction::Failed(
                    PlanFailure::OutOfOrder,
                )),
            },
    {
        match event {
            PlanEvent::TxFailed(e) => {
                self.stage = PlanStage::Failed;
                PlanAction::Failed(PlanFailure::Transaction(e))
            },
            PlanEvent::Refreshed(installed) => {
                if self.stage != PlanStage::Refreshing {
                    self.stage = PlanStage::Failed;
                    return PlanAction::Failed(PlanFailure::OutOfOrder);
                }
                let removed = close_topics(self.closing.as_slice(), &installed);
                if removed.len() == 0 {
                    self.removed = removed;
                    self.hold = Vec::new();
                    self.found = Vec::new();
                    self.stage = PlanStage::FetchingUpdates;
                    PlanAction::GetUpdates
                } else {
                    let names = clone_strings(&removed);
                    self.removed = removed;
                    self.stage = PlanStage::Resolving;
                    PlanAction::Resolve(names)
                }
            },
            PlanEvent::Resolved(cands) => {
                if self.stage != PlanStage::Resolving {
                    self.stage = PlanStage::Failed;
                    return PlanAction::Failed(PlanFailure::OutOfOrder);
                }
                match find_stable_version_of(&self.removed, &cands) {
                    Ok((not_found, found)) => {
                        self.hold = not_found;
                        self.found = found;
                        self.stage = PlanStage::FetchingUpdates;
                        PlanAction::GetUpdates
                    },
                    Err(e) => {
                        self.stage = PlanStage::Failed;
                        PlanAction::Failed(PlanFailure::Plan(e))
                    },
                }
            },
            PlanEvent::Updates(ups) => {
                if self.stage != PlanStage::FetchingUpdates {
                    self.stage = PlanStage::Failed;
                    return PlanAction::Failed(PlanFailure::OutOfOrder);
                }
                let mut ids = clone_strings(&self.found);
                let mut more = package_ids(&ups);
                ids.append(&mut more);
                if ids.len() == 0 {
                    self.stage = PlanStage::Done;
                    PlanAction::Finished(clone_strings(&self.hold), Vec::new())
                } else {
                    self.stage = PlanStage::Simulating;
                    PlanAction::Simulate(ids)
                }
            },
            PlanEvent::Simulated(steps) => {
                if self.stage != PlanStage::Simulating {
                    self.stage = PlanStage::Failed;
                    return PlanAction::Failed(PlanFailure::OutOfOrder);
                }
                self.stage = PlanStage::Done;
                PlanAction::Finished(clone_strings(&self.hold), steps)
            },
        }
    }
}

} // verus!
