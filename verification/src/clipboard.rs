use vstd::prelude::*;

use crate::errors::VaultError;

verus! {

/// How long a copied secret may stay in the shared clipboard resource.
pub const EXPOSURE_MS: u64 = 10000;

/// The exposure session: a secret enters the clipboard, stays for a bounded
/// cancellable window, and the resource is cleared on every exit path.
/// `Cleared` is terminal; a fresh session starts over from `Idle`.
#[derive(Debug, Clone, Copy, PartialEq, Eq, Structural)]
pub enum SessionState {
    Idle,
    Exposed { start_ms: u64 },
    Cleared,
}

/// What the event source reported while the secret was exposed.
#[derive(Debug, Clone, Copy, PartialEq, Eq, Structural)]
pub enum WaitEvent {
    /// The cancellation signal: a key was pressed.
    KeySignal,
    /// Some other input event arrived; the wait goes on.
    OtherInput,
    /// The bounded wait elapsed with no event.
    TimedOut,
    /// The event source failed.
    Failed,
}

/// What the caller must do next with the clipboard resource.
#[derive(Debug, Clone, Copy, PartialEq, Eq, Structural)]
pub enum SessionAction {
    /// Block at most `ms` milliseconds waiting for a cancellation signal.
    WaitInput { ms: u64 },
    /// Overwrite and empty the clipboard resource now.
    ClearNow,
}

/// What is left of the exposure window at `now_ms`: the budget minus the
/// elapsed time, never below zero. A clock reading before the start counts
/// as no elapsed time.
pub open spec fn remaining_budget_spec(start_ms: u64, now_ms: u64, budget_ms: u64) -> u64 {
    if now_ms >= start_ms {
        if now_ms - start_ms >= budget_ms {
            0
        } else {
            (budget_ms - (now_ms - start_ms)) as u64
        }
    } else {
        budget_ms
    }
}

pub fn remaining_budget(start_ms: u64, now_ms: u64, budget_ms: u64) -> (r: u64)
    ensures
        r == remaining_budget_spec(start_ms, now_ms, budget_ms),
{
    if now_ms >= start_ms {
        let elapsed = now_ms - start_ms;
        if elapsed >= budget_ms {
            0
        } else {
            budget_ms - elapsed
        }
    } else {
        budget_ms
    }
}

/// Entering the exposure window: a successful clipboard write opens the
/// window and the first wait gets the whole budget; a failed write is
/// reported as `ClipboardUnavailable`, and the resource is cleared all the
/// same, so no exit path leaves it holding anything.
pub fn expose_step(ok: bool, now_ms: u64) -> (r: (SessionState, SessionAction, Option<
    VaultError,
>))
    ensures
        ok ==> r == (
            SessionState::Exposed { start_ms: now_ms },
            SessionAction::WaitInput { ms: EXPOSURE_MS },
            None::<VaultError>,
        ),
        !ok ==> r == (
            SessionState::Cleared,
            SessionAction::ClearNow,
            Some(VaultError::ClipboardUnavailable),
        ),
{
    if ok {
        (
            SessionState::Exposed { start_ms: now_ms },
            SessionAction::WaitInput { ms: EXPOSURE_MS },
            None,
        )
    } else {
        (SessionState::Cleared, SessionAction::ClearNow, Some(VaultError::ClipboardUnavailable))
    }
}

/// Whether this observation ends the wait: anything but an ordinary input
/// event does, and so does an exhausted budget.
pub open spec fn exits_wait(start_ms: u64, now_ms: u64, ev: WaitEvent) -> bool {
    ev != WaitEvent::OtherInput || remaining_budget_spec(start_ms, now_ms, EXPOSURE_MS) == 0
}

/// One turn of the exposure wait. On a cancellation signal, a timeout, a
/// failed event source, or an exhausted budget, the window closes and the
/// resource must be cleared; otherwise the wait continues and blocks for
/// exactly the remaining budget, no less and no more.
pub fn wait_step(start_ms: u64, now_ms: u64, ev: &WaitEvent) -> (r: (SessionState, SessionAction))
    ensures
        exits_wait(start_ms, now_ms, *ev) ==> r == (
            SessionState::Cleared,
            SessionAction::ClearNow,
        ),
        !exits_wait(start_ms, now_ms, *ev) ==> r == (
            SessionState::Exposed { start_ms },
            SessionAction::WaitInput {
                ms: remaining_budget_spec(start_ms, now_ms, EXPOSURE_MS),
            },
        ),
        r.1 matches SessionAction::WaitInput { ms } ==> ms > 0,
{
    match ev {
        WaitEvent::OtherInput => {
            let rem = remaining_budget(start_ms, now_ms, EXPOSURE_MS);
            if rem == 0 {
                (SessionState::Cleared, SessionAction::ClearNow)
            } else {
                (SessionState::Exposed { start_ms }, SessionAction::WaitInput { ms: rem })
            }
        },
        _ => (SessionState::Cleared, SessionAction::ClearNow),
    }
}

/// When the wait ends, given the observations the event source hands back in
/// order: the time of the first one that exits the wait, or nothing if the
/// schedule runs out while the wait still has budget.
pub open spec fn wait_outcome(start_ms: u64, obs: Seq<(u64, WaitEvent)>) -> Option<u64>
    decreases obs.len(),
{
    if obs.len() == 0 {
        None
    } else if exits_wait(start_ms, obs[0].0, obs[0].1) {
        Some(obs[0].0)
    } else {
        wait_outcome(start_ms, obs.drop_first())
    }
}

/// The wait ends at the first exiting observation, whatever follows it: the
/// clipboard is cleared at a cancellation the moment it arrives, and at the
/// end of the budget otherwise, never later.
pub proof fn lemma_wait_first_exit(start_ms: u64, obs: Seq<(u64, WaitEvent)>, k: int)
    requires
        0 <= k < obs.len(),
        exits_wait(start_ms, obs[k].0, obs[k].1),
        forall|j: int| 0 <= j < k ==> !exits_wait(start_ms, #[trigger] obs[j].0, obs[j].1),
    ensures
        wait_outcome(start_ms, obs) == Some(obs[k].0),
    decreases k,
{
    if k > 0 {
        lemma_wait_first_exit(start_ms, obs.drop_first(), k - 1);
    }
}

/// Runs the exposure wait against a schedule of timed observations, exactly
/// as the wait loop does: each turn blocks for the remaining budget and the
/// first exiting observation closes the window. Returns the closing state
/// and the time the clear was ordered, or the still-open state if the
/// schedule ran out first.
pub fn run_wait_schedule(start_ms: u64, obs: &Vec<(u64, WaitEvent)>) -> (r: (
    SessionState,
    Option<u64>,
))
    ensures
        r.1 == wait_outcome(start_ms, obs@),
        r.1 is Some <==> r.0 == SessionState::Cleared,
        r.1 is None ==> r.0 == (SessionState::Exposed { start_ms }),
{
    let mut i: usize = 0;
    proof {
        assert(obs@.subrange(0, obs@.len() as int) =~= obs@);
    }
    while i < obs.len()
        invariant
            i <= obs@.len(),
            wait_outcome(start_ms, obs@) == wait_outcome(
                start_ms,
                obs@.subrange(i as int, obs@.len() as int),
            ),
        decreases obs@.len() - i,
    {
        let ghost remaining = obs@.subrange(i as int, obs@.len() as int);
        proof {
            assert(remaining[0] == obs@[i as int]);
            assert(remaining.drop_first() =~= obs@.subrange(i + 1, obs@.len() as int));
        }
        let now_ms = obs[i].0;
        let ev = obs[i].1;
        let (state, action) = wait_step(start_ms, now_ms, &ev);
        match action {
            SessionAction::ClearNow => {
                return (state, Some(now_ms));
            },
            SessionAction::WaitInput { ms: _ } => {},
        }
        i = i + 1;
    }
    proof {
        assert(obs@.subrange(obs@.len() as int, obs@.len() as int) =~= Seq::<
            (u64, WaitEvent),
        >::empty());
    }
    (SessionState::Exposed { start_ms }, None)
}

} // verus!
