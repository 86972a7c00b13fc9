use vstd::prelude::*;
use crate::commit::{CommitKey, Commitments};
use crate::types::{
    copy_range, AccountChange, BlockHeader, Context, ContextView, Instruction, Log, Patch,
    RequireError, VMError, M256,
};

verus! {

/// The state of one frame.
#[derive(Debug)]
pub enum MachineStatus {
    Running,
    InvokeCreate(Context),
    InvokeCall(Context),
    ExitedOk,
    ExitedErr(VMError),
}

pub ghost enum StatusView {
    Running,
    InvokeCreate(ContextView),
    InvokeCall(ContextView),
    ExitedOk,
    ExitedErr(VMError),
}

impl StatusView {
    pub open spec fn is_invoke(self) -> bool {
        self is InvokeCreate || self is InvokeCall
    }

    pub open spec fn is_exited(self) -> bool {
        self is ExitedOk || self is ExitedErr
    }
}

impl View for MachineStatus {
    type V = StatusView;

    open spec fn view(&self) -> StatusView {
        match self {
            MachineStatus::Running => StatusView::Running,
            MachineStatus::InvokeCreate(c) => StatusView::InvokeCreate(c@),
            MachineStatus::InvokeCall(c) => StatusView::InvokeCall(c@),
            MachineStatus::ExitedOk => StatusView::ExitedOk,
            MachineStatus::ExitedErr(e) => StatusView::ExitedErr(*e),
        }
    }
}

/// One call's live state: its context, position, status, gas, and the
/// output, logs and account changes it has produced so far.
#[derive(Debug)]
pub struct Machine {
    context: Context,
    block: BlockHeader,
    patch: Patch,
    pc: usize,
    status: MachineStatus,
    gas_used: u64,
    refunded_gas: u64,
    out: Vec<u8>,
    logs: Vec<Log>,
    changes: Vec<AccountChange>,
}

pub ghost struct MachineView {
    pub context: ContextView,
    pub block: BlockHeader,
    pub patch: Patch,
    pub pc: int,
    pub status: StatusView,
    pub gas_used: int,
    pub refunded_gas: int,
    pub out: Seq<u8>,
    pub logs: Seq<Log>,
    pub changes: Seq<AccountChange>,
}

impl View for Machine {
    type V = MachineView;

    closed spec fn view(&self) -> MachineView {
        MachineView {
            context: self.context@,
            block: self.block,
            patch: self.patch,
            pc: self.pc as int,
            status: self.status@,
            gas_used: self.gas_used as int,
            refunded_gas: self.refunded_gas as int,
            out: self.out@,
            logs: self.logs@,
            changes: self.changes@,
        }
    }
}

impl MachineView {
    pub open spec fn wf(self) -> bool {
        &&& 0 <= self.pc <= self.context.code.len()
        &&& 0 <= self.gas_used <= self.context.gas_limit
        &&& 0 <= self.refunded_gas <= u64::MAX
    }

    pub open spec fn available_gas(self) -> int {
        self.context.gas_limit - self.gas_used
    }
}

/// A frame that is about to run `ctx` from its start.
pub open spec fn fresh(ctx: ContextView, block: BlockHeader, patch: Patch) -> MachineView {
    MachineView {
        context: ctx,
        block,
        patch,
        pc: 0,
        status: StatusView::Running,
        gas_used: 0,
        refunded_gas: 0,
        out: Seq::empty(),
        logs: Seq::empty(),
        changes: Seq::empty(),
    }
}

/// `m` past one instruction, which cost one unit of gas.
pub open spec fn advanced(m: MachineView) -> MachineView {
    MachineView { pc: m.pc + 1, gas_used: m.gas_used + 1, ..m }
}

pub open spec fn min(a: int, b: int) -> int {
    if a <= b { a } else { b }
}

/// Where the instruction at `m.pc` that takes the next `len` instructions as
/// the code of a new frame leaves the caller.
pub open spec fn call_end(m: MachineView, len: u64) -> int {
    min(m.pc + 1 + len, m.context.code.len() as int)
}

/// The context of the frame invoked at `m.pc` on `target` with `gas` and `len`.
pub open spec fn child_context(m: MachineView, target: crate::types::Address, gas: u64, len: u64) -> ContextView {
    ContextView {
        address: target,
        caller: m.context.address,
        value: M256 { high: 0, low: 0 },
        data: Seq::empty(),
        code: m.context.code.subrange(m.pc + 1, call_end(m, len)),
        gas_limit: min(gas as int, m.context.gas_limit - m.gas_used - 1) as u64,
    }
}

pub open spec fn after_read(m: MachineView, known: bool, e: RequireError) -> Result<MachineView, RequireError> {
    if known {
        Ok(advanced(m))
    } else {
        Err(e)
    }
}

/// What one step does to a running frame, given the committed facts: the
/// frame after the step, or the fact it is missing.
pub open spec fn next(m: MachineView, k: Commitments) -> Result<MachineView, RequireError> {
    if m.pc >= m.context.code.len() {
        Ok(MachineView { status: StatusView::ExitedOk, ..m })
    } else if m.gas_used >= m.context.gas_limit {
        Ok(MachineView { status: StatusView::ExitedErr(VMError::EmptyGas), ..m })
    } else {
        let a = advanced(m);
        let here = m.context.address;
        match m.context.code[m.pc] {
            Instruction::Stop => Ok(MachineView { status: StatusView::ExitedOk, ..a }),
            Instruction::Fail(e) => Ok(MachineView { status: StatusView::ExitedErr(e), ..a }),
            Instruction::Output(b) => Ok(MachineView { out: m.out.push(b), ..a }),
            Instruction::Log(t) => Ok(
                MachineView { logs: m.logs.push(Log { address: here, topic: t }), ..a },
            ),
            Instruction::Balance(x) => after_read(
                m,
                k.knows(CommitKey::Account(x)),
                RequireError::Account(x),
            ),
            Instruction::CodeSize(x) => after_read(
                m,
                k.knows(CommitKey::Code(x)),
                RequireError::AccountCode(x),
            ),
            Instruction::SLoad(i) => after_read(
                m,
                k.knows(CommitKey::Storage(here, i)),
                RequireError::AccountStorage(here, i),
            ),
            Instruction::BlockHash(n) => after_read(
                m,
                k.knows_blockhash(n),
                RequireError::Blockhash(n),
            ),
            Instruction::SStore(i, v) => Ok(
                MachineView {
                    changes: m.changes.push(AccountChange { address: here, index: i, value: v }),
                    refunded_gas: if v.is_zero() {
                        min(m.refunded_gas + 1, u64::MAX as int)
                    } else {
                        m.refunded_gas
                    },
                    ..a
                },
            ),
            Instruction::Call(x, gas, len) => Ok(
                MachineView {
                    pc: call_end(m, len),
                    status: StatusView::InvokeCall(child_context(m, x, gas, len)),
                    ..a
                },
            ),
            Instruction::Create(x, gas, len) => Ok(
                MachineView {
                    pc: call_end(m, len),
                    status: StatusView::InvokeCreate(child_context(m, x, gas, len)),
                    ..a
                },
            ),
        }
    }
}

/// A parent `p` after its finished child `c` is folded into it: it runs
/// again and pays for the child's gas; only a child that exited without a
/// fault hands on its logs, account changes and refund.
pub open spec fn folded(p: MachineView, c: MachineView) -> MachineView {
    let used = min(p.context.gas_limit as int, p.gas_used + c.gas_used);
    if c.status is ExitedOk {
        MachineView {
            status: StatusView::Running,
            gas_used: used,
            logs: p.logs + c.logs,
            changes: p.changes + c.changes,
            refunded_gas: min(p.refunded_gas + c.refunded_gas, u64::MAX as int),
            ..p
        }
    } else {
        MachineView { status: StatusView::Running, gas_used: used, ..p }
    }
}

fn extend_copy<T: Copy>(dst: &mut Vec<T>, src: &Vec<T>)
    ensures
        final(dst)@ == old(dst)@ + src@,
{
    let mut i: usize = 0;
    while i < src.len()
        invariant
            0 <= i <= src.len(),
            dst@ == old(dst)@ + src@.subrange(0, i as int),
        decreases src.len() - i,
    {
        dst.push(src[i]);
        assert(old(dst)@ + src@.subrange(0, i + 1) =~= old(dst)@ + src@.subrange(0, i as int) + seq![src@[i as int]]);
        i += 1;
    }
    assert(src@.subrange(0, src.len() as int) =~= src@);
}

impl Machine {
    /// A frame about to run `context` from its start.
    pub fn new(context: Context, block: BlockHeader, patch: Patch) -> (r: Machine)
        ensures
            r@ == fresh(context@, block, patch),
            r@.wf(),
    {
        Machine {
            context,
            block,
            patch,
            pc: 0,
            status: MachineStatus::Running,
            gas_used: 0,
            refunded_gas: 0,
            out: Vec::new(),
            logs: Vec::new(),
            changes: Vec::new(),
        }
    }

    /// A child frame that runs `context` in this frame's block and patch.
    pub fn derive(&self, context: Context) -> (r: Machine)
        ensures
            r@ == fresh(context@, self@.block, self@.patch),
            r@.wf(),
    {
        Machine::new(context, self.block, self.patch)
    }

    pub fn status(&self) -> (r: &MachineStatus)
        ensures
            r@ == self@.status,
    {
        &self.status
    }

    pub fn out(&self) -> (r: &[u8])
        ensures
            r@ == self@.out,
    {
        self.out.as_slice()
    }

    pub fn logs(&self) -> (r: &[Log])
        ensures
            r@ == self@.logs,
    {
        self.logs.as_slice()
    }

    pub fn changes(&self) -> (r: &[AccountChange])
        ensures
            r@ == self@.changes,
    {
        self.changes.as_slice()
    }

    pub fn available_gas(&self) -> (r: u64)
        requires
            self@.wf(),
        ensures
            r == self@.available_gas(),
    {
        self.context.gas_limit - self.gas_used
    }

    pub fn refunded_gas(&self) -> (r: u64)
        ensures
            r == self@.refunded_gas,
    {
        self.refunded_gas
    }

    fn advance(&mut self)
        requires
            old(self)@.wf(),
            old(self)@.pc < old(self)@.context.code.len(),
            old(self)@.gas_used < old(self)@.context.gas_limit,
        ensures
            final(self)@ == advanced(old(self)@),
            final(self)@.wf(),
    {
        let n: usize = self.context.code.len();
        assert(self.pc < n);
        self.pc = self.pc + 1;
        self.gas_used = self.gas_used + 1;
    }

    /// Runs one unit of work of a running frame. When the instruction needs a
    /// fact that `known` does not hold, the frame is left as it was and the
    /// missing fact is returned.
    pub fn step(&mut self, known: &Commitments) -> (r: Result<(), RequireError>)
        requires
            old(self)@.wf(),
            old(self)@.status is Running,
        ensures
            final(self)@.wf(),
            match next(old(self)@, *known) {
                Ok(v) => r is Ok && final(self)@ == v,
                Err(e) => r == Err::<(), RequireError>(e) && *final(self) == *old(self),
            },
    {
        if self.pc >= self.context.code.len() {
            self.status = MachineStatus::ExitedOk;
            return Ok(());
        }
        if self.gas_used >= self.context.gas_limit {
            self.status = MachineStatus::ExitedErr(VMError::EmptyGas);
            return Ok(());
        }
        let here = self.context.address;
        match self.context.code[self.pc] {
            Instruction::Stop => {
                self.advance();
                self.status = MachineStatus::ExitedOk;
            },
            Instruction::Fail(e) => {
                self.advance();
                self.status = MachineStatus::ExitedErr(e);
            },
            Instruction::Output(b) => {
                self.advance();
                self.out.push(b);
            },
            Instruction::Log(t) => {
                self.advance();
                self.logs.push(Log { address: here, topic: t });
            },
            Instruction::Balance(x) => {
                if !known.knows_key(CommitKey::Account(x)) {
                    return Err(RequireError::Account(x));
                }
                self.advance();
            },
            Instruction::CodeSize(x) => {
                if !known.knows_key(CommitKey::Code(x)) {
                    return Err(RequireError::AccountCode(x));
                }
                self.advance();
            },
            Instruction::SLoad(i) => {
                if !known.knows_key(CommitKey::Storage(here, i)) {
                    return Err(RequireError::AccountStorage(here, i));
                }
                self.advance();
            },
            Instruction::BlockHash(n) => {
                if !known.knows_number(n) {
                    return Err(RequireError::Blockhash(n));
                }
                self.advance();
            },
            Instruction::SStore(i, v) => {
                self.advance();
                self.changes.push(AccountChange { address: here, index: i, value: v });
                if v.high == 0 && v.low == 0 && self.refunded_gas < u64::MAX {
                    self.refunded_gas = self.refunded_gas + 1;
                }
            },
            Instruction::Call(x, gas, len) => {
                let child = self.child_context(x, gas, len);
                self.advance();
                self.pc = self.pc + child.code.len();
                self.status = MachineStatus::InvokeCall(child);
            },
            Instruction::Create(x, gas, len) => {
                let child = self.child_context(x, gas, len);
                self.advance();
                self.pc = self.pc + child.code.len();
                self.status = MachineStatus::InvokeCreate(child);
            },
        }
        Ok(())
    }

    fn child_context(&self, target: crate::types::Address, gas: u64, len: u64) -> (r: Context)
        requires
            self@.wf(),
            self@.pc < self@.context.code.len(),
            self@.gas_used < self@.context.gas_limit,
        ensures
            r@ == child_context(self@, target, gas, len),
            r@.code.len() == call_end(self@, len) - self@.pc - 1,
    {
        let rest: usize = self.context.code.len() - self.pc - 1;
        let take: usize = if len < rest as u64 {
            len as usize
        } else {
            rest
        };
        let code = copy_range(&self.context.code, self.pc + 1, self.pc + 1 + take);
        let remaining: u64 = self.context.gas_limit - self.gas_used - 1;
        let limit: u64 = if gas <= remaining {
            gas
        } else {
            remaining
        };
        Context {
            address: target,
            caller: self.context.address,
            value: M256 { high: 0, low: 0 },
            data: Vec::new(),
            code,
            gas_limit: limit,
        }
    }

    /// Folds the finished child `sub` into this frame, which invoked it.
    pub fn apply_sub(&mut self, sub: Machine)
        requires
            old(self)@.wf(),
            old(self)@.status.is_invoke(),
            sub@.status.is_exited(),
        ensures
            final(self)@ == folded(old(self)@, sub@),
            final(self)@.wf(),
    {
        if sub.gas_used > self.context.gas_limit - self.gas_used {
            self.gas_used = self.context.gas_limit;
        } else {
            self.gas_used = self.gas_used + sub.gas_used;
        }
        if let MachineStatus::ExitedOk = sub.status {
            extend_copy(&mut self.logs, &sub.logs);
            extend_copy(&mut self.changes, &sub.changes);
            if sub.refunded_gas > u64::MAX - self.refunded_gas {
                self.refunded_gas = u64::MAX;
            } else {
                self.refunded_gas = self.refunded_gas + sub.refunded_gas;
            }
        }
        self.status = MachineStatus::Running;
    }
}

} // verus!
