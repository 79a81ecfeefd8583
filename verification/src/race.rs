use vstd::prelude::*;

verus! {

/// Decision after feeding one racer's outcome into a hybrid race.
pub enum RaceOutcome<A, E> {
    /// A racer succeeded: its answer wins the race and every other
    /// in-flight racer is to be cancelled.
    Winner(A),
    /// Every racer has failed: the race reports the first failure seen.
    AllFailed(E),
    /// Racers are still outstanding and none has succeeded yet.
    Undecided,
}

/// Decision state of one hybrid race. The caller dispatches the same
/// query to every destination concurrently and feeds each racer's outcome
/// in as it completes, in whatever order the network delivers them; this
/// state machine decides, deterministically, when the race is over and
/// with what result. First success wins — a completed racer that carries
/// an error never wins — and if every racer fails, the first failure fed
/// in is the one reported.
pub struct RaceState<E> {
    /// Racers whose outcome has not been fed in yet.
    pub pending: usize,
    /// The first failure fed in, kept until the race is decided.
    pub first_error: Option<E>,
}

impl<E> RaceState<E> {
    /// Start a race over `n` racers; a hybrid destination set is never
    /// empty, so there is at least one.
    pub fn start(n: usize) -> (s: RaceState<E>)
        requires
            n >= 1,
        ensures
            s.pending == n,
            s.first_error is None,
    {
        RaceState { pending: n, first_error: None }
    }

    /// Feed in the outcome of one racer. A success is the winner at once;
    /// a failure is swallowed unless it is the last outstanding racer, in
    /// which case the first failure seen is reported for the whole race.
    pub fn on_outcome<A>(&mut self, outcome: Result<A, E>) -> (d: RaceOutcome<A, E>)
        requires
            old(self).pending >= 1,
        ensures
            match outcome {
                Result::Ok(a) => d == RaceOutcome::<A, E>::Winner(a) && *final(self) == *old(
                    self,
                ),
                Result::Err(e) => {
                    let kept = if old(self).first_error is Some {
                        old(self).first_error->0
                    } else {
                        e
                    };
                    &&& final(self).pending == old(self).pending - 1
                    &&& if old(self).pending == 1 {
                        d == RaceOutcome::<A, E>::AllFailed(kept) && final(self).first_error
                            is None
                    } else {
                        d == RaceOutcome::<A, E>::Undecided && final(self).first_error == Some(
                            kept,
                        )
                    }
                },
            },
    {
        match outcome {
            Ok(a) => RaceOutcome::Winner(a),
            Err(e) => {
                self.pending = self.pending - 1;
                if self.first_error.is_none() {
                    self.first_error = Some(e);
                }
                if self.pending == 0 {
                    match self.first_error.take() {
                        Some(f) => RaceOutcome::AllFailed(f),
                        None => unreached(),
                    }
                } else {
                    RaceOutcome::Undecided
                }
            },
        }
    }
}

} // verus!
