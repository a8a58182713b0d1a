//! Carrying out a plan, one step at a time.
//!
//! A plan is a list of files and, at the same positions, the list of their
//! destinations. The moves themselves are the caller's to make: this
//! module only decides what is to be done next. For each file in turn the
//! directory of its destination is made sure of, then the file is moved.
//! The first step that fails ends the run; the moves made before it stay
//! as they are.

use crate::paths::parent;
use crate::structs::{file_texts, File};
use vstd::prelude::*;

verus! {

/// How far the file at hand has come.
#[derive(Debug, Clone, Copy, PartialEq, Eq, Structural)]
pub enum ItemState {
    /// Nothing has been done for the file yet.
    Pending,
    /// The directory of its destination is there.
    DirEnsured,
    /// The file has been moved. A run is in this state once every file of
    /// the plan has been moved.
    Moved,
    /// A step for the file has failed. The run is over.
    Failed,
}

/// How far a run through a plan has come.
#[derive(Debug, Clone, Copy, PartialEq, Eq, Structural)]
pub struct Execution {
    /// The position of the file at hand, which is the number of files
    /// moved so far.
    pub index: usize,
    /// How far the file at hand has come.
    pub state: ItemState,
    /// Whether the directories of the destinations are made sure of.
    pub ensure_dirs: bool,
}

/// What the caller is to do next.
#[derive(Debug)]
pub enum Action {
    /// Create the directory, with the directories above it, unless it is
    /// there already.
    EnsureDir(File),
    /// Move the first path to the second.
    Move(File, File),
    /// Nothing is left to do: this number of files has been moved, which is
    /// the whole plan.
    Finish(usize),
    /// A step has failed: give up, with this number of files moved.
    Abort(usize),
}

/// What is known at the end of a run, or in the middle of one.
#[derive(Debug, Clone, Copy, PartialEq, Eq, Structural)]
pub struct ExecutionReport {
    /// The number of files moved.
    pub completed: usize,
    /// The number of files of the plan.
    pub total: usize,
    /// Whether a step has failed.
    pub failed: bool,
}

/// The state in which the file at position `i` is taken up: there is no
/// such file once the plan is through; a file whose destination has no
/// directory above it fails at once.
pub open spec fn entering(destinations: Seq<Seq<char>>, i: int, ensure_dirs: bool) -> ItemState {
    if i >= destinations.len() {
        ItemState::Moved
    } else if !ensure_dirs {
        ItemState::DirEnsured
    } else if parent(destinations[i]) is Some {
        ItemState::Pending
    } else {
        ItemState::Failed
    }
}

/// The run at its start.
pub open spec fn started(destinations: Seq<Seq<char>>, ensure_dirs: bool) -> Execution {
    Execution { index: 0, state: entering(destinations, 0, ensure_dirs), ensure_dirs }
}

/// The run after the step at hand has come out well (`ok`) or not. A run
/// that is through or has failed stays as it is.
pub open spec fn after(run: Execution, ok: bool, destinations: Seq<Seq<char>>) -> Execution {
    if run.index >= destinations.len() {
        run
    } else {
        match run.state {
            ItemState::Pending => Execution {
                state: if ok {
                    ItemState::DirEnsured
                } else {
                    ItemState::Failed
                },
                ..run
            },
            ItemState::DirEnsured => if ok {
                Execution {
                    index: (run.index + 1) as usize,
                    state: entering(destinations, run.index + 1, run.ensure_dirs),
                    ensure_dirs: run.ensure_dirs,
                }
            } else {
                Execution { state: ItemState::Failed, ..run }
            },
            ItemState::Moved => run,
            ItemState::Failed => run,
        }
    }
}

/// Whether the run is over, for good or bad.
pub open spec fn is_over(run: Execution, total: int) -> bool {
    run.state is Failed || run.state is Moved || run.index >= total
}

/// The state in which the file at position `i` is taken up.
fn enter(destinations: &Vec<File>, i: usize, ensure_dirs: bool) -> (r: ItemState)
    ensures
        r == entering(file_texts(destinations@), i as int, ensure_dirs),
{
    if i >= destinations.len() {
        ItemState::Moved
    } else if !ensure_dirs {
        ItemState::DirEnsured
    } else {
        match destinations[i].parent() {
            Some(_) => ItemState::Pending,
            None => ItemState::Failed,
        }
    }
}

impl Execution {
    /// The run through a plan with these destinations, at its start.
    pub fn start(destinations: &Vec<File>, ensure_dirs: bool) -> (r: Execution)
        ensures
            r == started(file_texts(destinations@), ensure_dirs),
    {
        Execution { index: 0, state: enter(destinations, 0, ensure_dirs), ensure_dirs }
    }

    /// The run after the step at hand has come out well (`ok`) or not.
    pub fn step(self, ok: bool, destinations: &Vec<File>) -> (r: Execution)
        ensures
            r == after(self, ok, file_texts(destinations@)),
    {
        if self.index >= destinations.len() {
            return self;
        }
        match self.state {
            ItemState::Pending => Execution {
                index: self.index,
                state: if ok {
                    ItemState::DirEnsured
                } else {
                    ItemState::Failed
                },
                ensure_dirs: self.ensure_dirs,
            },
            ItemState::DirEnsured => if ok {
                Execution {
                    index: self.index + 1,
                    state: enter(destinations, self.index + 1, self.ensure_dirs),
                    ensure_dirs: self.ensure_dirs,
                }
            } else {
                Execution {
                    index: self.index,
                    state: ItemState::Failed,
                    ensure_dirs: self.ensure_dirs,
                }
            },
            ItemState::Moved => self,
            ItemState::Failed => self,
        }
    }

    /// What the caller is to do next in a run through the plan that moves
    /// each of `sources` to the path at the same position of
    /// `destinations`.
    pub fn next_action(&self, sources: &Vec<File>, destinations: &Vec<File>) -> (r: Action)
        requires
            sources.len() == destinations.len(),
        ensures
            match r {
                Action::EnsureDir(dir) => {
                    &&& self.index < destinations.len()
                    &&& self.state is Pending
                    &&& parent(destinations[self.index as int]@) == Some(dir@)
                },
                Action::Move(from, to) => {
                    &&& self.index < destinations.len()
                    &&& self.state is DirEnsured
                    &&& from@ == sources[self.index as int]@
                    &&& to@ == destinations[self.index as int]@
                },
                Action::Finish(moved) => {
                    &&& moved == self.index
                    &&& self.index >= destinations.len() || self.state is Moved
                },
                Action::Abort(moved) => {
                    &&& moved == self.index
                    &&& self.index < destinations.len()
                    &&& self.state is Failed || (self.state is Pending && parent(
                        destinations[self.index as int]@,
                    ) is None)
                },
            },
    {
        if self.index >= destinations.len() {
            return Action::Finish(self.index);
        }
        match self.state {
            ItemState::Pending => match destinations[self.index].parent() {
                Some(dir) => Action::EnsureDir(dir),
                None => Action::Abort(self.index),
            },
            ItemState::DirEnsured => Action::Move(
                sources[self.index].copy(),
                destinations[self.index].copy(),
            ),
            ItemState::Moved => Action::Finish(self.index),
            ItemState::Failed => Action::Abort(self.index),
        }
    }

    /// What is known of the run through a plan of `total` files.
    pub fn report(&self, total: usize) -> (r: ExecutionReport)
        ensures
            r == (ExecutionReport {
                completed: self.index,
                total: total,
                failed: self.state is Failed,
            }),
    {
        let failed = match self.state {
            ItemState::Failed => true,
            _ => false,
        };
        ExecutionReport { completed: self.index, total, failed }
    }
}

/// A step moves at most one file, and it moves one exactly when the move
/// of the file at hand has come out well. No step takes a move back.
pub proof fn lemma_step_moves_one(run: Execution, ok: bool, destinations: Seq<Seq<char>>)
    requires
        destinations.len() <= usize::MAX,
    ensures
        after(run, ok, destinations).index == run.index || after(run, ok, destinations).index
            == run.index + 1,
        after(run, ok, destinations).index == run.index + 1 <==> (run.index < destinations.len()
            && run.state is DirEnsured && ok),
        after(run, ok, destinations).ensure_dirs == run.ensure_dirs,
{
}

/// A step that fails ends the run, and a run that is over stays as it is,
/// whatever comes after.
pub proof fn lemma_failure_is_final(run: Execution, ok: bool, destinations: Seq<Seq<char>>)
    ensures
        run.index < destinations.len() && (run.state is Pending || run.state is DirEnsured) && !ok
            ==> after(run, ok, destinations).state is Failed && after(run, ok, destinations).index
            == run.index,
        is_over(run, destinations.len() as int) ==> after(run, ok, destinations) == run,
{
}

/// A run never gets past the end of its plan, and it is in the state
/// `Moved` exactly when the whole plan has been moved.
pub open spec fn in_plan(run: Execution, total: int) -> bool {
    &&& run.index <= total
    &&& run.state is Moved <==> run.index == total
}

/// A run starts inside its plan and every step keeps it there.
pub proof fn lemma_run_stays_in_plan(
    run: Execution,
    ok: bool,
    destinations: Seq<Seq<char>>,
    ensure_dirs: bool,
)
    requires
        destinations.len() <= usize::MAX,
    ensures
        in_plan(started(destinations, ensure_dirs), destinations.len() as int),
        in_plan(run, destinations.len() as int) ==> in_plan(
            after(run, ok, destinations),
            destinations.len() as int,
        ),
{
}

/// With every step coming out well, a file is moved in two steps where its
/// directory is made sure of, and in one where it is not.
pub proof fn lemma_good_steps_move_the_file(run: Execution, destinations: Seq<Seq<char>>)
    requires
        destinations.len() <= usize::MAX,
        run.index < destinations.len(),
    ensures
        run.state is Pending ==> after(after(run, true, destinations), true, destinations).index
            == run.index + 1,
        run.state is DirEnsured ==> after(run, true, destinations).index == run.index + 1,
{
}

} // verus!
