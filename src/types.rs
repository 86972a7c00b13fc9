use vstd::prelude::*;

verus! {

/// A 160-bit account address, as its high 32 bits and low 128 bits.
#[derive(Clone, Copy, Debug, PartialEq, Eq, Structural)]
pub struct Address {
    pub high: u32,
    pub low: u128,
}

/// A 256-bit machine word, as its high and low 128 bits.
#[derive(Clone, Copy, Debug, PartialEq, Eq, Structural)]
pub struct M256 {
    pub high: u128,
    pub low: u128,
}

impl M256 {
    pub open spec fn is_zero(self) -> bool {
        self.high == 0 && self.low == 0
    }
}

/// An event emitted by a frame: the emitting address and one topic word.
#[derive(Clone, Copy, Debug, PartialEq, Eq, Structural)]
pub struct Log {
    pub address: Address,
    pub topic: M256,
}

/// One account-state mutation: a storage slot of an account set to a value.
#[derive(Clone, Copy, Debug, PartialEq, Eq, Structural)]
pub struct AccountChange {
    pub address: Address,
    pub index: M256,
    pub value: M256,
}

/// The block a transaction runs in.
#[derive(Clone, Copy, Debug, PartialEq, Eq, Structural)]
pub struct BlockHeader {
    pub coinbase: Address,
    pub timestamp: u64,
    pub number: M256,
    pub difficulty: M256,
    pub gas_limit: u64,
}

/// The protocol version a transaction runs under.
#[derive(Clone, Copy, Debug, PartialEq, Eq, Structural)]
pub enum Patch {
    Frontier,
    Homestead,
    Eip150,
    Eip160,
}

/// A terminal fault of a frame or of the whole transaction.
#[derive(Clone, Copy, Debug, PartialEq, Eq, Structural)]
pub enum VMError {
    CallstackOverflow,
    EmptyGas,
    InvalidOpcode,
    StackUnderflow,
    StackOverflow,
    InvalidJump,
}

/// The external fact a frame is missing; the host answers with a commitment.
#[derive(Clone, Copy, Debug, PartialEq, Eq, Structural)]
pub enum RequireError {
    Account(Address),
    AccountCode(Address),
    AccountStorage(Address, M256),
    Blockhash(M256),
}

/// A commitment that contradicts one already accepted for the same key.
#[derive(Clone, Copy, Debug, PartialEq, Eq, Structural)]
pub enum CommitError {
    InvalidCommitment,
}

/// One unit of work of a frame, at the level of its effects on the call tree.
///
/// Reads (`Balance`, `CodeSize`, `SLoad`, `BlockHash`) need the matching fact
/// to be committed. `Call` and `Create` take the next `len` instructions as
/// the code of the new frame, with at most `gas` of the caller's gas.
#[derive(Clone, Copy, Debug, PartialEq, Eq, Structural)]
pub enum Instruction {
    Stop,
    Fail(VMError),
    Output(u8),
    Log(M256),
    Balance(Address),
    CodeSize(Address),
    SLoad(M256),
    SStore(M256, M256),
    BlockHash(M256),
    Call(Address, u64, u64),
    Create(Address, u64, u64),
}

/// The immutable description of one invocation.
#[derive(Debug)]
pub struct Context {
    pub address: Address,
    pub caller: Address,
    pub value: M256,
    pub data: Vec<u8>,
    pub code: Vec<Instruction>,
    pub gas_limit: u64,
}

pub ghost struct ContextView {
    pub address: Address,
    pub caller: Address,
    pub value: M256,
    pub data: Seq<u8>,
    pub code: Seq<Instruction>,
    pub gas_limit: u64,
}

impl View for Context {
    type V = ContextView;

    open spec fn view(&self) -> ContextView {
        ContextView {
            address: self.address,
            caller: self.caller,
            value: self.value,
            data: self.data@,
            code: self.code@,
            gas_limit: self.gas_limit,
        }
    }
}

/// A copy of `v[start..end]`.
pub fn copy_range<T: Copy>(v: &Vec<T>, start: usize, end: usize) -> (r: Vec<T>)
    requires
        start <= end <= v.len(),
    ensures
        r@ == v@.subrange(start as int, end as int),
{
    let mut r: Vec<T> = Vec::new();
    let mut i: usize = start;
    while i < end
        invariant
            start <= i <= end <= v.len(),
            r@ == v@.subrange(start as int, i as int),
        decreases end - i,
    {
        r.push(v[i]);
        assert(r@ =~= v@.subrange(start as int, i + 1));
        i += 1;
    }
    r
}

impl Context {
    pub fn new(
        address: Address,
        caller: Address,
        value: M256,
        data: Vec<u8>,
        code: Vec<Instruction>,
        gas_limit: u64,
    ) -> (r: Context)
        ensures
            r@ == (ContextView { address, caller, value, data: data@, code: code@, gas_limit }),
    {
        Context { address, caller, value, data, code, gas_limit }
    }

    /// A copy with the same view.
    pub fn duplicate(&self) -> (r: Context)
        ensures
            r@ == self@,
    {
        let data = copy_range(&self.data, 0, self.data.len());
        let code = copy_range(&self.code, 0, self.code.len());
        proof {
            assert(data@ =~= self.data@);
            assert(code@ =~= self.code@);
        }
        Context {
            address: self.address,
            caller: self.caller,
            value: self.value,
            data,
            code,
            gas_limit: self.gas_limit,
        }
    }
}

pub open spec fn slot_of(c: AccountChange) -> (Address, M256) {
    (c.address, c.index)
}

/// The storage that a sequence of changes leaves: each slot holds the value
/// of the last change to it.
pub open spec fn account_state(s: Seq<AccountChange>) -> Map<(Address, M256), M256>
    decreases s.len(),
{
    if s.len() == 0 {
        Map::empty()
    } else {
        account_state(s.drop_last()).insert(slot_of(s.last()), s.last().value)
    }
}

/// `r` lists each slot of `m` once, with its value.
pub open spec fn lists_state(r: Seq<AccountChange>, m: Map<(Address, M256), M256>) -> bool {
    &&& forall|i: int, j: int| 0 <= i < j < r.len() ==> slot_of(#[trigger] r[i]) != slot_of(#[trigger] r[j])
    &&& forall|i: int| 0 <= i < r.len() ==> m.contains_key(slot_of(#[trigger] r[i])) && m[slot_of(r[i])] == r[i].value
    &&& forall|k: (Address, M256)| #[trigger] m.contains_key(k) ==> exists|i: int| 0 <= i < r.len() && slot_of(#[trigger] r[i]) == k
}

/// The state that `changes` leave, one entry per slot, in the order in which
/// each slot was first changed.
pub fn resulting_state(changes: &[AccountChange]) -> (r: Vec<AccountChange>)
    ensures
        lists_state(r@, account_state(changes@)),
{
    let mut r: Vec<AccountChange> = Vec::new();
    let mut i: usize = 0;
    while i < changes.len()
        invariant
            0 <= i <= changes@.len(),
            lists_state(r@, account_state(changes@.subrange(0, i as int))),
        decreases changes.len() - i,
    {
        let c = changes[i];
        let ghost before = r@;
        let ghost m = account_state(changes@.subrange(0, i as int));
        assert(changes@.subrange(0, i + 1).drop_last() =~= changes@.subrange(0, i as int));
        let ghost m2 = account_state(changes@.subrange(0, i + 1));
        assert(m2 == m.insert(slot_of(c), c.value));
        let mut j: usize = 0;
        let mut found = false;
        while j < r.len() && !found
            invariant
                0 <= j <= r@.len(),
                r@ == before,
                found ==> j < r@.len() && slot_of(r@[j as int]) == slot_of(c),
                forall|t: int| 0 <= t < j ==> slot_of(#[trigger] r@[t]) != slot_of(c),
            decreases r.len() - j + if found { 0int } else { 1int },
        {
            if r[j].address == c.address && r[j].index == c.index {
                found = true;
            } else {
                j += 1;
            }
        }
        if found {
            r.set(j, c);
            proof {
                assert forall|a: int, b: int| 0 <= a < b < r@.len() implies slot_of(#[trigger] r@[a]) != slot_of(#[trigger] r@[b]) by {
                    assert(slot_of(before[a]) != slot_of(before[b]));
                }
                assert forall|k: (Address, M256)| #[trigger] m2.contains_key(k) implies exists|t: int| 0 <= t < r@.len() && slot_of(#[trigger] r@[t]) == k by {
                    if k != slot_of(c) {
                        let t = choose|t: int| 0 <= t < before.len() && slot_of(#[trigger] before[t]) == k;
                        assert(slot_of(r@[t]) == k);
                    } else {
                        assert(slot_of(r@[j as int]) == k);
                    }
                }
            }
        } else {
            r.push(c);
            proof {
                assert forall|k: (Address, M256)| #[trigger] m2.contains_key(k) implies exists|t: int| 0 <= t < r@.len() && slot_of(#[trigger] r@[t]) == k by {
                    if k != slot_of(c) {
                        let t = choose|t: int| 0 <= t < before.len() && slot_of(#[trigger] before[t]) == k;
                        assert(slot_of(r@[t]) == k);
                    } else {
                        assert(slot_of(r@[before.len() as int]) == k);
                    }
                }
                assert forall|t: int| 0 <= t < before.len() implies slot_of(#[trigger] before[t]) != slot_of(c) by {}
            }
        }
        i += 1;
    }
    assert(changes@.subrange(0, changes@.len() as int) =~= changes@);
    r
}

} // verus!
