//! The course of a trim: for each chosen bundle a privileged command that
//! removes the architecture, then, if that succeeded, one that restores the
//! file's owner; and at the end a new scan.

use crate::command::{restore_call, restore_command, strip_call, strip_command, Call, Invocation};
use crate::scanner::{entries_of, AppInfo, Entry};
use vstd::prelude::*;

verus! {

/// What a trim works on, as it was fixed when the user confirmed: the
/// chosen bundles in the order of the list, and the credential.
#[derive(Debug)]
pub struct TrimJob {
    pub targets: Vec<AppInfo>,
    pub password: String,
}

/// The mathematical value of a `TrimJob`.
pub struct Job {
    pub targets: Seq<Entry>,
    pub password: Seq<char>,
}

impl View for TrimJob {
    type V = Job;

    open spec fn view(&self) -> Job {
        Job { targets: entries_of(self.targets@), password: self.password@ }
    }
}

/// How far a trim has come: it is at work on bundle number `completed` of
/// `total`, whose name is `current_name`.
#[derive(Debug)]
pub struct TrimProgress {
    pub completed: usize,
    pub total: usize,
    pub current_name: String,
}

/// The mathematical value of a `TrimProgress`.
pub struct Progress {
    pub completed: nat,
    pub total: nat,
    pub current_name: Seq<char>,
}

impl View for TrimProgress {
    type V = Progress;

    open spec fn view(&self) -> Progress {
        Progress {
            completed: self.completed as nat,
            total: self.total as nat,
            current_name: self.current_name@,
        }
    }
}

impl Clone for TrimProgress {
    fn clone(&self) -> (r: Self)
        ensures
            r == *self,
    {
        TrimProgress {
            completed: self.completed,
            total: self.total,
            current_name: self.current_name.clone(),
        }
    }
}

impl TrimJob {
    /// The progress of a trim before it has come to its first bundle.
    pub fn initial_progress(&self) -> (r: TrimProgress)
        ensures
            r@ == (Progress {
                completed: 0,
                total: self@.targets.len(),
                current_name: Seq::empty(),
            }),
    {
        TrimProgress { completed: 0, total: self.targets.len(), current_name: String::new() }
    }
}

/// What the worker of a trim does next.
#[derive(Debug)]
pub enum TrimAction {
    /// Publish the progress, then run the command that removes the
    /// architecture from the bundle's executable.
    Strip { progress: TrimProgress, command: Invocation },
    /// Run the command that restores the owner of the executable just
    /// rewritten. Whether it succeeds is of no account.
    Restore { command: Invocation },
    /// All bundles are done: scan anew, and deliver what the scan finds.
    Rescan,
}

/// The mathematical value of a `TrimAction`.
pub enum Step {
    Strip { progress: Progress, call: Call },
    Restore { call: Call },
    Rescan,
}

impl View for TrimAction {
    type V = Step;

    open spec fn view(&self) -> Step {
        match self {
            TrimAction::Strip { progress, command } => Step::Strip {
                progress: progress@,
                call: command@,
            },
            TrimAction::Restore { command } => Step::Restore { call: command@ },
            TrimAction::Rescan => Step::Rescan,
        }
    }
}

/// Where the worker stands with the bundle that it is at.
#[derive(Debug, Clone, Copy, PartialEq, Eq, Structural)]
pub enum Phase {
    /// Nothing has been run for it yet.
    Pending,
    /// The command that removes the architecture is running.
    Stripping,
    /// The command that restores the owner is running.
    Restoring,
    /// No bundle is left.
    Finished,
}

/// A trim in progress: the job, the owner to restore, and where the worker
/// stands.
pub struct TrimRun {
    job: TrimJob,
    uid: u32,
    gid: u32,
    index: usize,
    phase: Phase,
}

/// The mathematical value of a `TrimRun`.
pub struct RunState {
    pub job: Job,
    pub uid: u32,
    pub gid: u32,
    /// The position in the job of the bundle that the worker is at.
    pub index: nat,
    pub phase: Phase,
}

impl RunState {
    /// The worker is at a bundle of the job, or has finished.
    pub open spec fn wf(self) -> bool {
        if self.phase is Finished {
            self.index == self.job.targets.len()
        } else if self.phase is Pending {
            self.index <= self.job.targets.len()
        } else {
            self.index < self.job.targets.len()
        }
    }

    /// The worker turns to bundle `i`: it strips it, or finishes where the
    /// job has no such bundle.
    pub open spec fn turn_to(self, i: nat) -> (RunState, Step) {
        if i < self.job.targets.len() {
            (
                RunState { index: i, phase: Phase::Stripping, ..self },
                Step::Strip {
                    progress: Progress {
                        completed: i + 1,
                        total: self.job.targets.len(),
                        current_name: self.job.targets[i as int].name,
                    },
                    call: strip_call(self.job.targets[i as int].binary_path, self.job.password),
                },
            )
        } else {
            (
                RunState { index: self.job.targets.len(), phase: Phase::Finished, ..self },
                Step::Rescan,
            )
        }
    }

    /// The state and the next step after the worker is told how the last
    /// step went. Before the first step there is nothing to tell, and what
    /// is told is not looked at. The owner is restored only after a strip
    /// that succeeded; after a strip that failed, and after the owner was
    /// restored or not, the worker turns to the next bundle.
    pub open spec fn after(self, succeeded: bool) -> (RunState, Step) {
        match self.phase {
            Phase::Pending => self.turn_to(self.index),
            Phase::Stripping => if succeeded && self.index < self.job.targets.len() {
                (
                    RunState { phase: Phase::Restoring, ..self },
                    Step::Restore {
                        call: restore_call(
                            self.uid,
                            self.gid,
                            self.job.targets[self.index as int].binary_path,
                        ),
                    },
                )
            } else {
                self.turn_to(self.index + 1)
            },
            Phase::Restoring => self.turn_to(self.index + 1),
            Phase::Finished => (self, Step::Rescan),
        }
    }
}

impl View for TrimRun {
    type V = RunState;

    closed spec fn view(&self) -> RunState {
        RunState {
            job: self.job@,
            uid: self.uid,
            gid: self.gid,
            index: self.index as nat,
            phase: self.phase,
        }
    }
}

impl TrimRun {
    /// Begins a trim. `uid` and `gid` say to whom the rewritten files are
    /// given back.
    pub fn new(job: TrimJob, uid: u32, gid: u32) -> (r: TrimRun)
        ensures
            r@ == (RunState { job: job@, uid, gid, index: 0, phase: Phase::Pending }),
            r@.wf(),
    {
        TrimRun { job, uid, gid, index: 0, phase: Phase::Pending }
    }

    /// Turns to bundle `i`.
    fn turn_to(&mut self, i: usize) -> (r: TrimAction)
        ensures
            (final(self)@, r@) == old(self)@.turn_to(i as nat),
    {
        let n = self.job.targets.len();
        if i < n {
            let target = &self.job.targets[i];
            let progress = TrimProgress {
                completed: i + 1,
                total: n,
                current_name: target.name.clone(),
            };
            let command = strip_command(target.binary_path.as_str(), self.job.password.as_str());
            self.index = i;
            self.phase = Phase::Stripping;
            TrimAction::Strip { progress, command }
        } else {
            self.index = n;
            self.phase = Phase::Finished;
            TrimAction::Rescan
        }
    }

    /// Says what the worker does next, given whether the step before
    /// succeeded.
    pub fn advance(&mut self, succeeded: bool) -> (r: TrimAction)
        ensures
            (final(self)@, r@) == old(self)@.after(succeeded),
            old(self)@.wf() ==> final(self)@.wf(),
    {
        match self.phase {
            Phase::Pending => self.turn_to(self.index),
            Phase::Stripping => {
                if succeeded && self.index < self.job.targets.len() {
                    let command = restore_command(
                        self.uid,
                        self.gid,
                        self.job.targets[self.index].binary_path.as_str(),
                    );
                    self.phase = Phase::Restoring;
                    TrimAction::Restore { command }
                } else if self.index < usize::MAX {
                    self.turn_to(self.index + 1)
                } else {
                    self.turn_to(self.index)
                }
            },
            Phase::Restoring => {
                if self.index < usize::MAX {
                    self.turn_to(self.index + 1)
                } else {
                    self.turn_to(self.index)
                }
            },
            Phase::Finished => TrimAction::Rescan,
        }
    }
}

/// A trim visits the bundles of its job in order and comes to an end: each
/// step either restores the owner of the bundle just stripped, or moves on
/// to a later bundle, or finishes.
pub proof fn lemma_trim_advances(s: RunState, succeeded: bool)
    requires
        s.wf(),
    ensures
        ({
            let (t, step) = s.after(succeeded);
            &&& t.wf()
            &&& t.job == s.job
            &&& t.index >= s.index
            &&& step is Restore <==> s.phase is Stripping && succeeded
            &&& step is Restore ==> t.index == s.index && t.phase is Restoring
            &&& step is Strip ==> t.phase is Stripping && (s.phase is Pending || t.index > s.index)
            &&& step is Rescan <==> t.phase is Finished
        }),
{
}

} // verus!
