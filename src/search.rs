use vstd::prelude::*;

verus! {

/// Newton steps taken from one starting guess before the guess is given up.
pub const MAX_STEPS: u32 = 50;

/// Starting guesses tried in all: the default guess, then the sweep.
pub const ATTEMPTS: u32 = 200;

/// The default starting guess, in hundredths (a rate of 0.1).
pub const DEFAULT_GUESS: i32 = 10;

/// The starting guess of an attempt, in hundredths: the default guess
/// first, then -0.99, -0.98, ... up to 0.99.
pub open spec fn guess_of(attempt: int) -> int {
    if attempt == 0 {
        DEFAULT_GUESS as int
    } else {
        attempt - 100
    }
}

/// What the caller does next with the current rate.
#[derive(Debug, Clone, Copy, PartialEq, Eq, Structural)]
pub enum Action {
    /// Set the rate to the given guess (in hundredths) and take a Newton step.
    StepFrom(i32),
    /// Take a Newton step from the current rate.
    Step,
    /// The current rate is the result.
    Accept,
    /// No guess led to a rate: the result is NaN.
    GiveUp,
}

/// The progress of the search for a rate: which starting guess is being
/// tried, and how many Newton steps have been taken from it.
#[derive(Debug, Clone, Copy, PartialEq, Eq, Structural)]
pub struct Search {
    pub attempt: u32,
    pub steps: u32,
}

impl Search {
    pub open spec fn wf(self) -> bool {
        self.attempt < ATTEMPTS && self.steps < MAX_STEPS
    }

    /// The Newton steps that the search may still ask for, at most.
    pub open spec fn steps_left(self) -> int {
        (ATTEMPTS - 1 - self.attempt) * MAX_STEPS + (MAX_STEPS - self.steps)
    }

    /// The search before any step: the first step starts from the default guess.
    pub fn start() -> (r: (Search, Action))
        ensures
            r.0.wf(),
            r.0 == (Search { attempt: 0, steps: 0 }),
            r.1 == Action::StepFrom(DEFAULT_GUESS),
            r.0.steps_left() == ATTEMPTS * MAX_STEPS,
    {
        (Search { attempt: 0, steps: 0 }, Action::StepFrom(DEFAULT_GUESS))
    }

    /// Records a Newton step and decides what follows. `converged` tells
    /// whether the step moved the rate by at most the tolerance, `finite`
    /// whether the new rate is a finite number.
    ///
    /// A step that converges to a finite rate ends the search, on any step
    /// of the budget, the last one included; one that converges to a rate
    /// that is not finite moves on to the next guess. A guess whose budget
    /// is spent without convergence is given up; after the last guess the
    /// search fails.
    pub fn after_step(&mut self, converged: bool, finite: bool) -> (r: Action)
        requires
            old(self).wf(),
        ensures
            final(self).wf(),
            converged && finite ==> r == Action::Accept
                && *final(self) == *old(self),
            old(self).steps + 1 < MAX_STEPS && !converged ==> r == Action::Step && *final(self)
                == (Search { attempt: old(self).attempt, steps: (old(self).steps + 1) as u32 }),
            ((old(self).steps + 1 == MAX_STEPS && !converged) || (converged && !finite)) && old(self).attempt + 1
                < ATTEMPTS ==> r == Action::StepFrom(guess_of(old(self).attempt + 1) as i32)
                && *final(self) == (Search { attempt: (old(self).attempt + 1) as u32, steps: 0 }),
            ((old(self).steps + 1 == MAX_STEPS && !converged) || (converged && !finite)) && old(self).attempt + 1
                == ATTEMPTS ==> r == Action::GiveUp && *final(self) == *old(self),
            r is Step || r is StepFrom ==> 0 <= final(self).steps_left() < old(self).steps_left(),
    {
        let taken = self.steps + 1;
        if converged && finite {
            Action::Accept
        } else if taken < MAX_STEPS && !converged {
            self.steps = taken;
            Action::Step
        } else if self.attempt + 1 < ATTEMPTS {
            self.attempt = self.attempt + 1;
            self.steps = 0;
            Action::StepFrom(self.attempt as i32 - 100)
        } else {
            Action::GiveUp
        }
    }
}

} // verus!
