use vstd::prelude::*;
use crate::commit::{key_of, contradicts, contradicts_hash, has_key, has_number, AccountCommitment, Commitments};
use crate::machine::{fresh, folded, next, Machine, MachineStatus, MachineView, StatusView};
use crate::types::{account_state, lists_state, resulting_state, AccountChange, BlockHeader, CommitError, Context, ContextView, Log, Patch, RequireError, VMError, M256};

verus! {

/// The most frames that may be active at once.
pub const CALLSTACK_LIMIT: usize = 1024;

/// The status of the whole transaction.
#[derive(Clone, Copy, Debug, PartialEq, Eq, Structural)]
pub enum VMStatus {
    Running,
    ExitedOk,
    ExitedErr(VMError),
}

/// The transaction's status for a stack of frames: an overflowing stack has
/// failed, and otherwise the outermost frame decides.
pub open spec fn status_of(frames: Seq<MachineView>) -> VMStatus {
    if frames.len() > CALLSTACK_LIMIT {
        VMStatus::ExitedErr(VMError::CallstackOverflow)
    } else {
        match frames[0].status {
            StatusView::ExitedOk => VMStatus::ExitedOk,
            StatusView::ExitedErr(e) => VMStatus::ExitedErr(e),
            _ => VMStatus::Running,
        }
    }
}

/// The context a frame in an invoking status asks to run.
pub open spec fn invoked(s: StatusView) -> ContextView {
    match s {
        StatusView::InvokeCall(c) => c,
        StatusView::InvokeCreate(c) => c,
        _ => arbitrary(),
    }
}

/// The work left in one frame: four per instruction not yet run, and one
/// more while it runs than once it waits or has exited.
pub open spec fn weight(m: MachineView) -> int {
    4 * (m.context.code.len() - m.pc) + if m.status is Running { 3int } else { 2int }
}

pub open spec fn total_weight(s: Seq<MachineView>) -> int
    decreases s.len(),
{
    if s.len() == 0 {
        0
    } else {
        total_weight(s.drop_last()) + weight(s.last())
    }
}

/// The work left in a stack of frames, counting the frame that its top frame
/// is about to invoke.
pub open spec fn work_left(s: Seq<MachineView>) -> int {
    total_weight(s) + if s.len() > 0 {
        pending(s.last())
    } else {
        0int
    }
}

/// The work of the frame that `m` is about to invoke, if any.
pub open spec fn pending(m: MachineView) -> int {
    if m.status.is_invoke() {
        4 * (invoked(m.status).code.len() as int) + 4
    } else {
        0int
    }
}

proof fn lemma_next_less(m: MachineView, k: Commitments)
    requires
        m.wf(),
        m.status is Running,
        next(m, k) is Ok,
    ensures
        weight(next(m, k)->Ok_0) + pending(next(m, k)->Ok_0) < weight(m),
{
}

proof fn lemma_total_push(s: Seq<MachineView>, m: MachineView)
    ensures
        total_weight(s.push(m)) == total_weight(s) + weight(m),
{
    assert(s.push(m).drop_last() =~= s);
}

proof fn lemma_total_nonneg(s: Seq<MachineView>)
    requires
        forall|i: int| 0 <= i < s.len() ==> (#[trigger] s[i]).wf(),
    ensures
        total_weight(s) >= 0,
    decreases s.len(),
{
    if s.len() > 0 {
        let d = s.drop_last();
        assert forall|i: int| 0 <= i < d.len() implies (#[trigger] d[i]).wf() by {
            assert(d[i] == s[i]);
        }
        lemma_total_nonneg(d);
        assert(s[s.len() - 1].wf());
    }
}

/// A run may end in any state with the same frames, history and facts.
proof fn lemma_run_same_end(a: VM, b: VM, c: VM, fuel: nat, pushes: nat)
    requires
        a.runs_to(b, fuel, pushes),
        c.frames() == b.frames(),
        c.history_view() == b.history_view(),
        c.known() == b.known(),
    ensures
        a.runs_to(c, fuel, pushes),
    decreases fuel,
{
    if fuel > 0 {
        let mid = choose|mid: VM|
            #[trigger] a.steps_to(mid, Ok(())) && mid.wf() && pushes >= a.pushed(mid)
                && mid.runs_to(b, (fuel - 1) as nat, (pushes - a.pushed(mid)) as nat);
        let p = (pushes - a.pushed(mid)) as nat;
        lemma_run_same_end(mid, b, c, (fuel - 1) as nat, p);
    }
}

/// A run followed by one more step while running is a run.
proof fn lemma_run_extend(a: VM, b: VM, c: VM, fuel: nat, pushes: nat)
    requires
        a.runs_to(b, fuel, pushes),
        b.spec_status() is Running,
        b.steps_to(c, Ok(())),
        c.wf(),
    ensures
        a.runs_to(c, fuel + 1, pushes + b.pushed(c)),
    decreases fuel,
{
    if fuel == 0 {
        assert(c.runs_to(c, 0, 0));
        assert(a.steps_to(c, Ok(())));
    } else {
        let mid = choose|mid: VM|
            #[trigger] a.steps_to(mid, Ok(())) && mid.wf() && pushes >= a.pushed(mid)
                && mid.runs_to(b, (fuel - 1) as nat, (pushes - a.pushed(mid)) as nat);
        let p = (pushes - a.pushed(mid)) as nat;
        lemma_run_extend(mid, b, c, (fuel - 1) as nat, p);
        assert(mid.runs_to(c, fuel as nat, p + b.pushed(c)));
    }
}

/// The orchestrator of one transaction: a stack of frames (the outermost
/// first), the contexts of every frame ever invoked, and the facts committed
/// so far.
pub struct VM {
    machines: Vec<Machine>,
    history: Vec<Context>,
    known: Commitments,
}

impl VM {
    pub closed spec fn frames(&self) -> Seq<MachineView> {
        self.machines@.map_values(|m: Machine| m@)
    }

    pub closed spec fn history_view(&self) -> Seq<ContextView> {
        self.history@.map_values(|c: Context| c@)
    }

    pub closed spec fn known(&self) -> Commitments {
        self.known
    }

    /// At least one frame; every frame well formed; every frame under the
    /// top one waits for the frame above it.
    pub open spec fn wf(&self) -> bool {
        &&& self.frames().len() >= 1
        &&& forall|i: int| 0 <= i < self.frames().len() ==> (#[trigger] self.frames()[i]).wf()
        &&& forall|i: int|
            0 <= i < self.frames().len() - 1 ==> (#[trigger] self.frames()[i]).status.is_invoke()
        &&& self.known().wf()
    }

    pub open spec fn spec_status(&self) -> VMStatus {
        status_of(self.frames())
    }

    /// What one `step` does: `after` and `r` are the state and result.
    pub open spec fn steps_to(self, after: VM, r: Result<(), RequireError>) -> bool {
        let f = self.frames();
        let n = f.len();
        let top = f[n - 1];
        &&& after.known() == self.known()
        &&& if n > CALLSTACK_LIMIT {
            r is Ok && after.frames() == f && after.history_view() == self.history_view()
        } else if top.status is Running {
            &&& after.history_view() == self.history_view()
            &&& match next(top, self.known()) {
                Ok(v) => r is Ok && after.frames() == f.update(n - 1, v),
                Err(e) => r == Err::<(), RequireError>(e) && after.frames() == f,
            }
        } else if top.status.is_exited() {
            &&& r is Ok
            &&& after.history_view() == self.history_view()
            &&& if n == 1 {
                after.frames() == f
            } else {
                after.frames() == f.subrange(0, n - 2).push(folded(f[n - 2], top))
            }
        } else {
            &&& r is Ok
            &&& after.history_view() == self.history_view().push(invoked(top.status))
            &&& after.frames() == f.push(fresh(invoked(top.status), top.block, top.patch))
        }
    }

    /// A transaction about to run `context` as its only frame.
    pub fn new(context: Context, block: BlockHeader, patch: Patch) -> (r: VM)
        ensures
            r.wf(),
            r.frames() == seq![fresh(context@, block, patch)],
            r.history_view() == Seq::<ContextView>::empty(),
            r.known().accounts() == Seq::<AccountCommitment>::empty(),
            r.known().blockhashes() == Seq::<(M256, M256)>::empty(),
    {
        let mut machines: Vec<Machine> = Vec::new();
        machines.push(Machine::new(context, block, patch));
        let r = VM { machines, history: Vec::new(), known: Commitments::new() };
        assert(r.frames() =~= seq![fresh(context@, block, patch)]);
        assert(r.history_view() =~= Seq::<ContextView>::empty());
        r
    }

    /// Advances the transaction by one unit of work: runs the top frame, folds
    /// a finished top frame into its parent, or pushes the frame that the top
    /// frame invokes. A stack over the limit is left alone. When the top frame
    /// needs a fact that is not committed, nothing changes and the missing
    /// fact is returned.
    pub fn step(&mut self) -> (r: Result<(), RequireError>)
        requires
            old(self).wf(),
        ensures
            final(self).wf(),
            old(self).steps_to(*final(self), r),
            r is Ok && old(self).spec_status() is Running ==> work_left(final(self).frames())
                < work_left(old(self).frames()),
    {
        let ghost f = self.frames();
        let ghost h = self.history_view();
        let n: usize = self.machines.len();
        if n > CALLSTACK_LIMIT {
            return Ok(());
        }
        let mut top = self.machines.pop().unwrap();
        proof {
            assert(top@ == f[n - 1]);
            assert(self.frames() =~= f.subrange(0, n - 1));
        }
        let mut invoked_ctx: Option<Context> = None;
        let mut running = false;
        let mut exited = false;
        match top.status() {
            MachineStatus::Running => {
                running = true;
            },
            MachineStatus::ExitedOk => {
                exited = true;
            },
            MachineStatus::ExitedErr(_) => {
                exited = true;
            },
            MachineStatus::InvokeCall(c) => {
                invoked_ctx = Some(c.duplicate());
            },
            MachineStatus::InvokeCreate(c) => {
                invoked_ctx = Some(c.duplicate());
            },
        }
        if running {
            let r = top.step(&self.known);
            self.machines.push(top);
            proof {
                lemma_total_push(f.subrange(0, n - 1), top@);
                lemma_total_push(f.subrange(0, n - 1), f[n - 1]);
                assert(f.subrange(0, n - 1).push(f[n - 1]) =~= f);
                match next(f[n - 1], self.known) {
                    Ok(v) => {
                        lemma_next_less(f[n - 1], self.known);
                        assert(self.frames() =~= f.update(n - 1, v));
                        assert(f.update(n - 1, v) =~= f.subrange(0, n - 1).push(v));
                        assert(work_left(self.frames()) < work_left(f));
                    },
                    Err(e) => {
                        assert(self.frames() =~= f);
                    },
                }
            }
            r
        } else if exited {
            if self.machines.len() == 0 {
                self.machines.push(top);
                proof {
                    assert(self.frames() =~= f);
                }
            } else {
                let mut parent = self.machines.pop().unwrap();
                proof {
                    assert(parent@ == f[n - 2]);
                    assert(self.frames() =~= f.subrange(0, n - 2));
                }
                parent.apply_sub(top);
                self.machines.push(parent);
                proof {
                    assert(self.frames() =~= f.subrange(0, n - 2).push(folded(f[n - 2], f[n - 1])));
                    lemma_total_push(f.subrange(0, n - 2), f[n - 2]);
                    lemma_total_push(f.subrange(0, n - 2), folded(f[n - 2], f[n - 1]));
                    lemma_total_push(f.subrange(0, n - 1), f[n - 1]);
                    assert(f.subrange(0, n - 2).push(f[n - 2]) =~= f.subrange(0, n - 1));
                    assert(f.subrange(0, n - 1).push(f[n - 1]) =~= f);
                    assert(work_left(self.frames()) < work_left(f));
                }
            }
            Ok(())
        } else {
            let ctx = invoked_ctx.unwrap();
            let child_ctx = ctx.duplicate();
            let child = top.derive(child_ctx);
            self.history.push(ctx);
            self.machines.push(top);
            self.machines.push(child);
            proof {
                assert(self.history_view() =~= h.push(invoked(f[n - 1].status)));
                assert(self.frames() =~= f.push(fresh(invoked(f[n - 1].status), f[n - 1].block, f[n - 1].patch)));
                lemma_total_push(f, child@);
                assert(work_left(self.frames()) < work_left(f));
            }
            Ok(())
        }
    }

    /// Whether a step from `self` to `after` pushed a frame.
    pub open spec fn pushed(self, after: VM) -> nat {
        if after.frames().len() == self.frames().len() + 1 {
            1
        } else {
            0
        }
    }

    /// `after` is reached from `self` by `fuel` steps, each taken while the
    /// transaction is running and each returning `Ok`; `pushes` of them
    /// pushed a frame.
    pub open spec fn runs_to(self, after: VM, fuel: nat, pushes: nat) -> bool
        decreases fuel,
    {
        if fuel == 0 {
            &&& pushes == 0
            &&& after.frames() == self.frames()
            &&& after.history_view() == self.history_view()
            &&& after.known() == self.known()
        } else {
            &&& self.spec_status() is Running
            &&& exists|mid: VM|
                #[trigger] self.steps_to(mid, Ok(())) && mid.wf() && pushes >= self.pushed(mid)
                    && mid.runs_to(after, (fuel - 1) as nat, (pushes - self.pushed(mid)) as nat)
        }
    }

    /// Steps until the transaction's status is terminal, or until a frame
    /// needs a fact that is not committed, which is returned. A transaction
    /// whose status is already terminal is left as it is.
    pub fn fire(&mut self) -> (r: Result<(), RequireError>)
        requires
            old(self).wf(),
        ensures
            final(self).wf(),
            final(self).known() == old(self).known(),
            exists|fuel: nat, pushes: nat| old(self).runs_to(*final(self), fuel, pushes),
            !(old(self).spec_status() is Running) ==> r is Ok && final(self).frames() == old(
                self,
            ).frames() && final(self).history_view() == old(self).history_view(),
            r is Ok ==> !(final(self).spec_status() is Running),
            r is Err ==> {
                let f = final(self).frames();
                &&& final(self).spec_status() is Running
                &&& f.len() <= CALLSTACK_LIMIT
                &&& f[f.len() - 1].status is Running
                &&& next(f[f.len() - 1], final(self).known()) == Err::<MachineView, RequireError>(
                    r->Err_0,
                )
            },
    {
        let ghost fuel: nat = 0;
        let ghost pushes: nat = 0;
        loop
            invariant
                self.wf(),
                self.known() == old(self).known(),
                old(self).wf(),
                old(self).runs_to(*self, fuel, pushes),
                !(old(self).spec_status() is Running) ==> fuel == 0,
            decreases work_left(self.frames()),
        {
            proof {
                lemma_total_nonneg(self.frames());
            }
            let ghost before = *self;
            match self.status() {
                VMStatus::Running => {
                    let r = self.step();
                    proof {
                        lemma_total_nonneg(self.frames());
                    }
                    if r.is_err() {
                        proof {
                            lemma_run_same_end(*old(self), before, *self, fuel, pushes);
                        }
                        return r;
                    }
                    proof {
                        lemma_run_extend(*old(self), before, *self, fuel, pushes);
                        pushes = pushes + before.pushed(*self);
                        fuel = fuel + 1;
                    }
                },
                _ => {
                    return Ok(());
                },
            }
        }
    }

    /// What committing the account fact `c` does: `after` and `r` are the
    /// state and result.
    pub open spec fn commits_account(self, after: VM, c: AccountCommitment, r: Result<(), CommitError>) -> bool {
        let s = self.known().accounts();
        &&& after.frames() == self.frames()
        &&& after.history_view() == self.history_view()
        &&& after.known().blockhashes() == self.known().blockhashes()
        &&& (r is Err <==> contradicts(s, c))
        &&& if r is Err || has_key(s, key_of(c)) {
            after.known() == self.known()
        } else {
            after.known().accounts() == s.push(c)
        }
    }

    /// What committing `hash` as the hash of block `number` does.
    pub open spec fn commits_blockhash(self, after: VM, number: M256, hash: M256, r: Result<(), CommitError>) -> bool {
        let s = self.known().blockhashes();
        &&& after.frames() == self.frames()
        &&& after.history_view() == self.history_view()
        &&& after.known().accounts() == self.known().accounts()
        &&& (r is Err <==> contradicts_hash(s, number, hash))
        &&& if r is Err || has_number(s, number) {
            after.known() == self.known()
        } else {
            after.known().blockhashes() == s.push((number, hash))
        }
    }

    /// Commits an account fact to every frame of the transaction.
    pub fn commit_account(&mut self, commitment: AccountCommitment) -> (r: Result<(), CommitError>)
        requires
            old(self).wf(),
        ensures
            final(self).wf(),
            old(self).commits_account(*final(self), commitment, r),
    {
        self.known.commit_account(commitment)
    }

    /// Commits the hash of block `number` to every frame of the transaction.
    pub fn commit_blockhash(&mut self, number: M256, hash: M256) -> (r: Result<(), CommitError>)
        requires
            old(self).wf(),
        ensures
            final(self).wf(),
            old(self).commits_blockhash(*final(self), number, hash, r),
    {
        self.known.commit_blockhash(number, hash)
    }

    /// The account state the outermost frame has left: each storage slot it
    /// changed, once, with the last value written to it.
    pub fn accounts(&self) -> (r: Vec<AccountChange>)
        requires
            self.wf(),
        ensures
            lists_state(r@, account_state(self.frames()[0].changes)),
    {
        resulting_state(self.machines[0].changes())
    }

    /// The output of the outermost frame.
    pub fn out(&self) -> (r: &[u8])
        requires
            self.wf(),
        ensures
            r@ == self.frames()[0].out,
    {
        self.machines[0].out()
    }

    /// The gas the outermost frame has left.
    pub fn available_gas(&self) -> (r: u64)
        requires
            self.wf(),
        ensures
            r == self.frames()[0].available_gas(),
    {
        assert(self.frames()[0].wf());
        self.machines[0].available_gas()
    }

    /// The gas refunded to the outermost frame.
    pub fn refunded_gas(&self) -> (r: u64)
        requires
            self.wf(),
        ensures
            r == self.frames()[0].refunded_gas,
    {
        self.machines[0].refunded_gas()
    }

    /// The logs of the outermost frame, in the order they were emitted.
    pub fn logs(&self) -> (r: &[Log])
        requires
            self.wf(),
        ensures
            r@ == self.frames()[0].logs,
    {
        self.machines[0].logs()
    }

    /// The context of every frame ever invoked, in the order of invocation.
    pub fn history(&self) -> (r: &[Context])
        ensures
            r@.map_values(|c: Context| c@) == self.history_view(),
    {
        self.history.as_slice()
    }

    /// The number of active frames.
    pub fn depth(&self) -> (r: usize)
        ensures
            r == self.frames().len(),
    {
        self.machines.len()
    }

    pub fn status(&self) -> (r: VMStatus)
        requires
            self.wf(),
        ensures
            r == self.spec_status(),
    {
        if self.machines.len() > CALLSTACK_LIMIT {
            return VMStatus::ExitedErr(VMError::CallstackOverflow);
        }
        assert(self.frames()[0] == self.machines@[0]@);
        match self.machines[0].status() {
            MachineStatus::ExitedOk => VMStatus::ExitedOk,
            MachineStatus::ExitedErr(e) => VMStatus::ExitedErr(*e),
            _ => VMStatus::Running,
        }
    }
}

} // verus!
