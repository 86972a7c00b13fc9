use vstd::prelude::*;
use crate::commit::{key_of, same_fact, AccountCommitment};
use crate::machine::{folded, min};
use crate::types::{CommitError, M256, RequireError, VMError};
use crate::vm::{VMStatus, CALLSTACK_LIMIT, VM};

verus! {

/// Once the transaction's status is terminal, a step changes neither the
/// status nor the frames.
pub proof fn terminal_status_is_stable(before: VM, after: VM, r: Result<(), RequireError>)
    requires
        before.wf(),
        !(before.spec_status() is Running),
        before.steps_to(after, r),
    ensures
        after.spec_status() == before.spec_status(),
        after.frames() == before.frames(),
        r is Ok,
{
    let n = before.frames().len();
    if n <= CALLSTACK_LIMIT && n > 1 {
        assert(before.frames()[0].status.is_invoke());
    }
}

/// A step from a stack of at most one frame past the limit leaves at most
/// that many frames, and a stack past the limit is reported as a call-stack
/// overflow whatever its outermost frame reports.
pub proof fn depth_is_bounded(before: VM, after: VM, r: Result<(), RequireError>)
    requires
        before.wf(),
        before.frames().len() <= CALLSTACK_LIMIT + 1,
        before.steps_to(after, r),
    ensures
        after.frames().len() <= CALLSTACK_LIMIT + 1,
        after.frames().len() > CALLSTACK_LIMIT ==> after.spec_status() == VMStatus::ExitedErr(
            VMError::CallstackOverflow,
        ),
{
}

/// A step appends to the history exactly when it pushes a frame, and then
/// appends the context of that frame; the history is never shortened or
/// rewritten, whatever becomes of the invoked frames.
pub proof fn history_records_invocations(before: VM, after: VM, r: Result<(), RequireError>)
    requires
        before.wf(),
        before.steps_to(after, r),
    ensures
        after.frames().len() == before.frames().len() + 1 ==> after.history_view()
            == before.history_view().push(after.frames().last().context),
        after.frames().len() != before.frames().len() + 1 ==> after.history_view()
            == before.history_view(),
{
}

/// When a step folds a frame that exited with a fault into its parent, the
/// parent keeps its own logs and account changes and none of the child's,
/// and is charged the gas the child used.
pub proof fn faulted_child_is_discarded(before: VM, after: VM, r: Result<(), RequireError>)
    requires
        before.wf(),
        1 < before.frames().len() <= CALLSTACK_LIMIT,
        before.frames().last().status is ExitedErr,
        before.steps_to(after, r),
    ensures
        ({
            let n = before.frames().len();
            let parent = before.frames()[n - 2];
            let child = before.frames()[n - 1];
            let p = after.frames().last();
            &&& after.frames().len() == n - 1
            &&& p.logs == parent.logs
            &&& p.changes == parent.changes
            &&& p.gas_used == min(parent.context.gas_limit as int, parent.gas_used + child.gas_used)
            &&& p.status is Running
        }),
{
    let n = before.frames().len();
    assert(after.frames().last() == folded(before.frames()[n - 2], before.frames()[n - 1]));
}

/// A fact for a key that nothing was committed for is accepted, and from then
/// on it is known to every frame of the transaction, paused ones included.
pub proof fn new_fact_is_accepted(before: VM, after: VM, c: AccountCommitment, r: Result<(), CommitError>)
    requires
        before.wf(),
        !before.known().knows(key_of(c)),
        before.commits_account(after, c, r),
    ensures
        r is Ok,
        after.known().knows(key_of(c)),
        after.frames() == before.frames(),
{
    let s = after.known().accounts();
    assert(s[s.len() - 1] == c);
}

/// A hash for a block that no hash was committed for is accepted, and from
/// then on it is known to every frame of the transaction.
pub proof fn new_blockhash_is_accepted(before: VM, after: VM, number: M256, hash: M256, r: Result<(), CommitError>)
    requires
        before.wf(),
        !before.known().knows_blockhash(number),
        before.commits_blockhash(after, number, hash, r),
    ensures
        r is Ok,
        after.known().knows_blockhash(number),
        after.frames() == before.frames(),
{
    let s = after.known().blockhashes();
    assert(s[s.len() - 1] == (number, hash));
}

/// Committing again a fact that is already held succeeds and changes nothing.
pub proof fn repeated_fact_is_accepted(before: VM, after: VM, c: AccountCommitment, r: Result<(), CommitError>)
    requires
        before.wf(),
        exists|i: int|
            0 <= i < before.known().accounts().len() && same_fact(
                #[trigger] before.known().accounts()[i],
                c,
            ),
        before.commits_account(after, c, r),
    ensures
        r is Ok,
        after.known() == before.known(),
        after.frames() == before.frames(),
{
    let s = before.known().accounts();
    let i = choose|i: int| 0 <= i < s.len() && same_fact(#[trigger] s[i], c);
    assert(key_of(s[i]) == key_of(c));
    if r is Err {
        let j = choose|j: int| 0 <= j < s.len() && key_of(#[trigger] s[j]) == key_of(c) && !same_fact(s[j], c);
        if i < j {
            assert(key_of(s[i]) != key_of(s[j]));
        } else if j < i {
            assert(key_of(s[j]) != key_of(s[i]));
        }
    }
}

/// Committing a fact that contradicts the one held for its key fails and
/// changes nothing.
pub proof fn contradicting_fact_is_refused(before: VM, after: VM, c: AccountCommitment, r: Result<(), CommitError>)
    requires
        before.wf(),
        exists|i: int|
            0 <= i < before.known().accounts().len() && key_of(#[trigger] before.known().accounts()[i])
                == key_of(c) && !same_fact(before.known().accounts()[i], c),
        before.commits_account(after, c, r),
    ensures
        r is Err,
        after.known() == before.known(),
        after.frames() == before.frames(),
{
}

/// Committing a different hash for a block whose hash is held fails and
/// changes nothing; committing the same hash again succeeds.
pub proof fn blockhash_commit_is_consistent(before: VM, after: VM, number: M256, hash: M256, r: Result<(), CommitError>)
    requires
        before.wf(),
        before.known().knows_blockhash(number),
        before.commits_blockhash(after, number, hash, r),
    ensures
        after.known() == before.known(),
        after.frames() == before.frames(),
        r is Err <==> exists|i: int|
            0 <= i < before.known().blockhashes().len() && (#[trigger] before.known().blockhashes()[i]).0
                == number && before.known().blockhashes()[i].1 != hash,
{
}

/// Over a run of steps, the history keeps what it held and grows by exactly
/// the number of frames the run pushed, whatever became of them.
pub proof fn run_history_counts_pushes(before: VM, after: VM, fuel: nat, pushes: nat)
    requires
        before.wf(),
        before.runs_to(after, fuel, pushes),
    ensures
        after.history_view().len() == before.history_view().len() + pushes,
        after.history_view().subrange(0, before.history_view().len() as int)
            == before.history_view(),
    decreases fuel,
{
    let h = before.history_view();
    if fuel == 0 {
        assert(after.history_view().subrange(0, h.len() as int) =~= h);
    } else {
        let mid = choose|mid: VM|
            #[trigger] before.steps_to(mid, Ok(())) && mid.wf() && pushes >= before.pushed(mid)
                && mid.runs_to(after, (fuel - 1) as nat, (pushes - before.pushed(mid)) as nat);
        history_records_invocations(before, mid, Ok(()));
        run_history_counts_pushes(mid, after, (fuel - 1) as nat, (pushes - before.pushed(mid)) as nat);
        let hm = mid.history_view();
        assert(hm.subrange(0, h.len() as int) =~= h);
        assert(after.history_view().subrange(0, h.len() as int) =~= hm.subrange(0, h.len() as int));
    }
}

/// Over a run of steps from a stack of at most one frame past the limit,
/// the stack never holds more: the run stops at the first push past the
/// limit, which is reported as a call-stack overflow.
pub proof fn run_depth_is_bounded(before: VM, after: VM, fuel: nat, pushes: nat)
    requires
        before.wf(),
        before.frames().len() <= CALLSTACK_LIMIT + 1,
        before.runs_to(after, fuel, pushes),
    ensures
        after.frames().len() <= CALLSTACK_LIMIT + 1,
        after.frames().len() > CALLSTACK_LIMIT ==> after.spec_status() == VMStatus::ExitedErr(
            VMError::CallstackOverflow,
        ),
    decreases fuel,
{
    if fuel > 0 {
        let mid = choose|mid: VM|
            #[trigger] before.steps_to(mid, Ok(())) && mid.wf() && pushes >= before.pushed(mid)
                && mid.runs_to(after, (fuel - 1) as nat, (pushes - before.pushed(mid)) as nat);
        depth_is_bounded(before, mid, Ok(()));
        run_depth_is_bounded(mid, after, (fuel - 1) as nat, (pushes - before.pushed(mid)) as nat);
    }
}

/// A transaction with an empty history that pushes one frame and then runs
/// on without pushing another ends with a history of exactly the context of
/// that frame, whatever became of it.
pub proof fn single_invocation_history(before: VM, mid: VM, after: VM, fuel: nat)
    requires
        before.wf(),
        before.history_view().len() == 0,
        before.steps_to(mid, Ok(())),
        mid.wf(),
        mid.frames().len() == before.frames().len() + 1,
        mid.runs_to(after, fuel, 0),
    ensures
        after.history_view() == seq![mid.frames().last().context],
{
    history_records_invocations(before, mid, Ok(()));
    run_history_counts_pushes(mid, after, fuel, 0);
    assert(mid.history_view() =~= seq![mid.frames().last().context]);
    assert(after.history_view() =~= after.history_view().subrange(0, 1));
}

} // verus!
