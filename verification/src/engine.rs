//! The course of one run, as a state machine.
//!
//! The machine decides; its caller acts. Each `Action` asks the caller for one thing
//! (list the files, look whether a destination exists, move a file) and the caller
//! answers with the matching `Event`. Nothing is moved before the masks are validated,
//! at least one file matches and, unless overwriting is forced, every destination has
//! been found free.
use vstd::prelude::*;
use vstd::string::*;
use crate::Cli;
use crate::error::{PatternError, RunError};
use crate::file_match::Match;
use crate::fs_utils::{collected, dedup_adjacent, find_matches, match_views, unusable_for};
use crate::input_validation::{
    is_fault_of,
    masks_valid,
    normalize_mask_slashes,
    normalized,
    validate_patterns,
};
use crate::text::{segments, texts};

verus! {

/// Where a run stands.
#[derive(Debug, Clone, Copy, PartialEq, Eq)]
pub enum Stage {
    /// Nothing has happened yet.
    Start,
    /// The masks are valid; the files are being listed.
    Listing,
    /// The destination of the match with this number is being looked at.
    Checking(usize),
    /// The match with this number is being moved.
    Moving(usize),
    /// The run is over.
    Finished,
}

/// What the caller reports to the machine.
#[derive(Debug, Clone)]
pub enum Event {
    /// The run begins.
    Begin,
    /// The files under the working directory, by their paths relative to it.
    Listed(Vec<String>),
    /// Whether the destination asked about exists.
    Probed(bool),
    /// Whether the move asked for succeeded.
    Moved(bool),
}

/// What the machine asks of the caller.
#[derive(Debug, Clone, PartialEq, Eq)]
pub enum Action {
    /// List the files and answer with `Event::Listed`.
    List,
    /// Look whether the destination of the match with this number exists and answer
    /// with `Event::Probed`.
    Probe(usize),
    /// Move the match with this number and answer with `Event::Moved`.
    Move(usize),
    /// Report that the run is over and that this many files were moved.
    Report(usize),
    /// Give the run up with this error. Nothing has been moved.
    Fail(RunError),
}

/// One run: its masks, what it found and how far it is.
pub struct Run {
    /// The normalised source mask.
    pub old_file_mask: String,
    /// The normalised destination mask.
    pub new_file_mask: String,
    /// Whether existing destinations may be overwritten.
    pub force: bool,
    /// Where the run stands.
    pub stage: Stage,
    /// The files to move, in the order in which they are moved.
    pub matches: Vec<Match>,
    /// How many files have been moved so far.
    pub moved: usize,
}

impl Run {
    /// Whether the stage fits what has been found and moved.
    pub open spec fn wf(&self) -> bool {
        match self.stage {
            Stage::Checking(i) => i < self.matches@.len() && !self.force && self.moved == 0,
            Stage::Moving(i) => i < self.matches@.len() && self.moved <= i,
            Stage::Start | Stage::Listing => self.moved == 0,
            Stage::Finished => true,
        }
    }

    /// Whether `event` answers what the run asked last.
    pub open spec fn awaits(&self, event: Event) -> bool {
        match (self.stage, event) {
            (Stage::Start, Event::Begin) => true,
            (Stage::Listing, Event::Listed(_)) => true,
            (Stage::Checking(_), Event::Probed(_)) => true,
            (Stage::Moving(_), Event::Moved(_)) => true,
            _ => false,
        }
    }

    /// The stage and the action with which the moves begin or, unless overwriting is
    /// forced, the look at the first destination.
    pub open spec fn opens_with(&self, stage: Stage, action: Action) -> bool {
        if self.force {
            stage == Stage::Moving(0) && action == Action::Move(0)
        } else {
            stage == Stage::Checking(0) && action == Action::Probe(0)
        }
    }

    /// What one step makes of the run `self` and an event: the run `next` and an action.
    pub open spec fn steps_to(&self, event: Event, next: Run, action: Action) -> bool {
        &&& next.old_file_mask == self.old_file_mask
        &&& next.new_file_mask == self.new_file_mask
        &&& next.force == self.force
        &&& match (self.stage, event) {
            (Stage::Start, Event::Begin) => {
                &&& next.matches == self.matches
                &&& next.moved == self.moved
                &&& if masks_valid(self.old_file_mask@, self.new_file_mask@) {
                    next.stage == Stage::Listing && action == Action::List
                } else {
                    &&& next.stage == Stage::Finished
                    &&& action matches Action::Fail(RunError::InvalidPattern(e)) && is_fault_of(
                        self.old_file_mask@,
                        self.new_file_mask@,
                        e,
                    )
                }
            },
            (Stage::Listing, Event::Listed(paths)) => {
                let mask_segs = segments(self.old_file_mask@);
                let found = dedup_adjacent(
                    collected(mask_segs, self.new_file_mask@, texts(paths@)),
                );
                &&& next.moved == self.moved
                &&& if unusable_for(mask_segs, texts(paths@)) {
                    &&& next.stage == Stage::Finished
                    &&& next.matches == self.matches
                    &&& action == Action::Fail(RunError::InvalidPattern(PatternError::Rejected))
                } else if found.len() == 0 {
                    &&& next.stage == Stage::Finished
                    &&& next.matches == self.matches
                    &&& action == Action::Fail(RunError::NoMatch)
                } else {
                    &&& match_views(next.matches@) == found
                    &&& self.opens_with(next.stage, action)
                }
            },
            (Stage::Checking(i), Event::Probed(exists)) => {
                &&& next.matches == self.matches
                &&& next.moved == self.moved
                &&& if exists {
                    &&& next.stage == Stage::Finished
                    &&& action matches Action::Fail(RunError::DestinationExists(path)) && path@
                        == self.matches@[i as int].new_file_path@
                } else if i + 1 < self.matches@.len() {
                    &&& next.stage matches Stage::Checking(j) && j == i + 1
                    &&& action matches Action::Probe(j) && j == i + 1
                } else {
                    next.stage == Stage::Moving(0) && action == Action::Move(0)
                }
            },
            (Stage::Moving(i), Event::Moved(done)) => {
                &&& next.matches == self.matches
                &&& next.moved == self.moved + (if done {
                    1usize
                } else {
                    0usize
                })
                &&& if i + 1 < self.matches@.len() {
                    &&& next.stage matches Stage::Moving(j) && j == i + 1
                    &&& action matches Action::Move(j) && j == i + 1
                } else {
                    next.stage == Stage::Finished && action == Action::Report(next.moved)
                }
            },
            _ => false,
        }
    }

    /// A run for the given arguments, with both masks normalised.
    pub fn new(cli: Cli) -> (run: Run)
        ensures
            run.wf(),
            run.stage == Stage::Start,
            run.old_file_mask@ == normalized(cli.old_file_mask@),
            run.new_file_mask@ == normalized(cli.new_file_mask@),
            run.force == cli.force,
            run.matches@.len() == 0,
            run.moved == 0,
    {
        let mut old_file_mask = cli.old_file_mask;
        let mut new_file_mask = cli.new_file_mask;
        normalize_mask_slashes(&mut old_file_mask);
        normalize_mask_slashes(&mut new_file_mask);
        Run {
            old_file_mask,
            new_file_mask,
            force: cli.force,
            stage: Stage::Start,
            matches: Vec::new(),
            moved: 0,
        }
    }

    /// Whether `event` answers what the run asked last.
    pub fn expects(&self, event: &Event) -> (fits: bool)
        ensures
            fits == self.awaits(*event),
    {
        match (self.stage, event) {
            (Stage::Start, Event::Begin) => true,
            (Stage::Listing, Event::Listed(_)) => true,
            (Stage::Checking(_), Event::Probed(_)) => true,
            (Stage::Moving(_), Event::Moved(_)) => true,
            _ => false,
        }
    }

    /// Whether the run is well formed, for callers that built or changed one by hand.
    pub fn is_well_formed(&self) -> (ok: bool)
        ensures
            ok == self.wf(),
    {
        match self.stage {
            Stage::Checking(i) => i < self.matches.len() && !self.force && self.moved == 0,
            Stage::Moving(i) => i < self.matches.len() && self.moved <= i,
            Stage::Start | Stage::Listing => self.moved == 0,
            Stage::Finished => true,
        }
    }

    /// Takes the answer to the last action and decides what comes next.
    pub fn step(&mut self, event: Event) -> (action: Action)
        requires
            old(self).wf(),
            old(self).awaits(event),
        ensures
            final(self).wf(),
            old(self).steps_to(event, *final(self), action),
    {
        match event {
            Event::Begin => {
                match validate_patterns(self.old_file_mask.as_str(), self.new_file_mask.as_str()) {
                    Ok(_) => {
                        self.stage = Stage::Listing;
                        Action::List
                    },
                    Err(e) => {
                        self.stage = Stage::Finished;
                        Action::Fail(RunError::InvalidPattern(e))
                    },
                }
            },
            Event::Listed(paths) => {
                match find_matches(
                    self.old_file_mask.as_str(),
                    self.new_file_mask.as_str(),
                    &paths,
                ) {
                    Err(e) => {
                        self.stage = Stage::Finished;
                        Action::Fail(RunError::InvalidPattern(e))
                    },
                    Ok(found) => {
                        if found.len() == 0 {
                            self.stage = Stage::Finished;
                            Action::Fail(RunError::NoMatch)
                        } else {
                            self.matches = found;
                            if self.force {
                                self.stage = Stage::Moving(0);
                                Action::Move(0)
                            } else {
                                self.stage = Stage::Checking(0);
                                Action::Probe(0)
                            }
                        }
                    },
                }
            },
            Event::Probed(exists) => {
                let count = self.matches.len();
                let i = match self.stage {
                    Stage::Checking(i) => i,
                    _ => 0,
                };
                if exists {
                    self.stage = Stage::Finished;
                    Action::Fail(
                        RunError::DestinationExists(self.matches[i].new_file_path.clone()),
                    )
                } else if i + 1 < count {
                    self.stage = Stage::Checking(i + 1);
                    Action::Probe(i + 1)
                } else {
                    self.stage = Stage::Moving(0);
                    Action::Move(0)
                }
            },
            Event::Moved(done) => {
                let count = self.matches.len();
                let i = match self.stage {
                    Stage::Moving(i) => i,
                    _ => 0,
                };
                if done {
                    self.moved = self.moved + 1;
                }
                if i + 1 < count {
                    self.stage = Stage::Moving(i + 1);
                    Action::Move(i + 1)
                } else {
                    self.stage = Stage::Finished;
                    Action::Report(self.moved)
                }
            },
        }
    }
}

/// A run that fails has moved nothing: a failure comes only before the first move is
/// asked for, and it ends the run.
pub proof fn lemma_failure_moves_nothing(run: Run, event: Event, next: Run, action: Action)
    requires
        run.wf(),
        run.steps_to(event, next, action),
        action is Fail,
    ensures
        !(run.stage is Moving),
        next.moved == 0,
        next.stage == Stage::Finished,
{
}

/// Unless overwriting is forced, a move is asked for only once every destination has
/// been looked at and found free: the first move follows the look at the last
/// destination, and every later move follows a move.
pub proof fn lemma_moves_follow_checks(run: Run, event: Event, next: Run, action: Action)
    requires
        run.wf(),
        run.steps_to(event, next, action),
        action is Move,
        !run.force,
    ensures
        match run.stage {
            Stage::Checking(i) => i + 1 == run.matches@.len() && event == Event::Probed(false)
                && action == Action::Move(0),
            Stage::Moving(i) => action matches Action::Move(j) && j == i + 1,
            _ => false,
        },
{
}

/// The destinations are looked at in the order of the matches, and the files are moved
/// in that order: each step goes on to the next match or leaves the stage.
pub proof fn lemma_steps_go_in_order(run: Run, event: Event, next: Run, action: Action)
    requires
        run.wf(),
        run.steps_to(event, next, action),
    ensures
        next.wf(),
        match (run.stage, next.stage) {
            (Stage::Checking(i), Stage::Checking(j)) => j == i + 1,
            (Stage::Moving(i), Stage::Moving(j)) => j == i + 1,
            (Stage::Moving(_), later) => later == Stage::Finished,
            (Stage::Finished, _) => false,
            _ => true,
        },
{
}

} // verus!
