use vstd::prelude::*;

verus! {

/// How long one teardown may take: the allowance configuration gives it, and
/// the shutdown grace it must not outlive once a stop is running. Both are in
/// nanoseconds.
///
/// Every teardown path shares this — an allocation's cleanup, a reaper
/// deletion, and an interrupted staging image's removal — so a backend has one
/// clock to read rather than a timeout per caller.
#[derive(Clone, Copy, Debug, PartialEq, Eq, Structural)]
pub struct CleanupBudget {
    pub allowance: u128,
    pub deadline: Option<u128>,
}

impl CleanupBudget {
    /// What a deadline still allows at this moment.
    pub open spec fn left(&self, now: u128) -> Option<int> {
        match self.deadline {
            Some(deadline) => Some(
                if deadline >= now {
                    deadline - now
                } else {
                    0
                },
            ),
            None => None,
        }
    }

    /// A duration, shortened to what the deadline still allows.
    pub open spec fn limited(&self, duration: int, now: u128) -> int {
        match self.left(now) {
            Some(left) => if left <= duration {
                left
            } else {
                duration
            },
            None => duration,
        }
    }

    /// The configured allowance, with no deadline over it.
    pub fn allow(allowance: u128) -> (budget: CleanupBudget)
        ensures
            budget == (CleanupBudget { allowance, deadline: None }),
    {
        CleanupBudget { allowance, deadline: None }
    }

    /// The same allowance, capped by a deadline it must not outlive.
    pub fn until(self, deadline: u128) -> (budget: CleanupBudget)
        ensures
            budget == (CleanupBudget { allowance: self.allowance, deadline: Some(deadline) }),
    {
        CleanupBudget { allowance: self.allowance, deadline: Some(deadline) }
    }

    /// The same budget with its allowance raised to a backend's floor. A
    /// backend that cannot stop, undefine, and delete volumes in the
    /// configured time says so here; a shutdown deadline still caps the result.
    pub fn at_least(self, floor: u128) -> (budget: CleanupBudget)
        ensures
            budget == (CleanupBudget {
                allowance: if self.allowance >= floor {
                    self.allowance
                } else {
                    floor
                },
                deadline: self.deadline,
            }),
    {
        CleanupBudget {
            allowance: if self.allowance >= floor {
                self.allowance
            } else {
                floor
            },
            deadline: self.deadline,
        }
    }

    /// Does a shutdown deadline cap this teardown?
    pub fn is_bounded(&self) -> (is: bool)
        ensures
            is == (self.deadline is Some),
    {
        self.deadline.is_some()
    }

    /// The whole configured allowance, before any deadline.
    pub fn allowance(&self) -> (allowance: u128)
        ensures
            allowance == self.allowance,
    {
        self.allowance
    }

    /// What the deadline still allows, or `None` when nothing bounds it.
    pub fn remaining(&self, now: u128) -> (remaining: Option<u128>)
        ensures
            match remaining {
                Some(left) => self.left(now) == Some(left as int),
                None => self.left(now) is None,
            },
    {
        match self.deadline {
            Some(deadline) => Some(deadline.saturating_sub(now)),
            None => None,
        }
    }

    /// `duration`, shortened to what the deadline still allows. For a step
    /// that needs something other than the whole allowance.
    pub fn limit(&self, duration: u128, now: u128) -> (limited: u128)
        ensures
            limited == self.limited(duration as int, now),
    {
        match self.remaining(now) {
            Some(left) => if left <= duration {
                left
            } else {
                duration
            },
            None => duration,
        }
    }

    /// The timeout one teardown gets if it starts now.
    pub fn timeout(&self, now: u128) -> (timeout: u128)
        ensures
            timeout == self.limited(self.allowance as int, now),
    {
        self.limit(self.allowance, now)
    }
}

/// A teardown that starts now ends inside its allowance and, where a stop is
/// running, before the stop's deadline: the deadline caps whatever floor a
/// backend raises the allowance to.
pub proof fn law_budget_never_outlives_its_deadline(budget: CleanupBudget, now: u128)
    ensures
        budget.limited(budget.allowance as int, now) <= budget.allowance,
        budget.deadline matches Some(deadline) ==> now <= deadline ==> now + budget.limited(
            budget.allowance as int,
            now,
        ) <= deadline,
        budget.deadline matches Some(deadline) ==> now >= deadline ==> budget.limited(
            budget.allowance as int,
            now,
        ) == 0,
{
}

/// A step gets what it asks for, cut down to what a running stop still allows and
/// to nothing else; without a stop it gets all of it.
pub proof fn law_only_a_stop_shortens_a_step(budget: CleanupBudget, duration: u128, now: u128)
    ensures
        ({
            let given = budget.limited(duration as int, now);
            match budget.deadline {
                None => given == duration,
                Some(deadline) => {
                    &&& 0 <= given <= duration
                    &&& now + duration <= deadline ==> given == duration
                    &&& now <= deadline < now + duration ==> now + given == deadline
                    &&& deadline < now ==> given == 0
                },
            }
        }),
{
}

} // verus!
