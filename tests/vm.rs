use sputnikvm::{
    AccountCommitment, Address, BlockHeader, CommitError, Context, Instruction, M256, Patch,
    RequireError, VMError, VMStatus, VM,
};

fn addr(n: u128) -> Address {
    Address { high: 0, low: n }
}

fn word(n: u128) -> M256 {
    M256 { high: 0, low: n }
}

fn block() -> BlockHeader {
    BlockHeader {
        coinbase: addr(0),
        timestamp: 0,
        number: word(100),
        difficulty: word(1),
        gas_limit: 1_000_000,
    }
}

fn root(code: Vec<Instruction>, gas: u64) -> VM {
    let ctx = Context::new(addr(1), addr(2), word(0), vec![], code, gas);
    VM::new(ctx, block(), Patch::Homestead)
}

#[test]
fn root_finishing_on_first_step() {
    let mut vm = root(vec![Instruction::Stop], 10);
    assert_eq!(vm.fire(), Ok(()));
    assert_eq!(vm.status(), VMStatus::ExitedOk);
    assert_eq!(vm.depth(), 1);
    assert!(vm.history().is_empty());
    assert_eq!(vm.available_gas(), 9);
}

#[test]
fn one_call_is_folded_back() {
    let mut vm = root(
        vec![Instruction::Call(addr(7), 50, 1), Instruction::Stop, Instruction::Output(9), Instruction::Stop],
        100,
    );
    assert_eq!(vm.step(), Ok(()));
    assert_eq!(vm.depth(), 1);
    assert_eq!(vm.status(), VMStatus::Running);
    assert_eq!(vm.step(), Ok(()));
    assert_eq!(vm.depth(), 2);
    assert_eq!(vm.history().len(), 1);
    let ctx = &vm.history()[0];
    assert_eq!(ctx.address, addr(7));
    assert_eq!(ctx.caller, addr(1));
    assert_eq!(ctx.code, vec![Instruction::Stop]);
    assert_eq!(ctx.gas_limit, 50);
    assert_eq!(vm.step(), Ok(()));
    assert_eq!(vm.depth(), 2);
    assert_eq!(vm.step(), Ok(()));
    assert_eq!(vm.depth(), 1);
    assert_eq!(vm.status(), VMStatus::Running);
    assert_eq!(vm.fire(), Ok(()));
    assert_eq!(vm.status(), VMStatus::ExitedOk);
    assert_eq!(vm.history().len(), 1);
    assert_eq!(vm.out(), &[9u8][..]);
    assert_eq!(vm.available_gas(), 96);
}

#[test]
fn nested_calls_past_the_limit_overflow() {
    let code = vec![Instruction::Call(addr(3), 1_000_000, u64::MAX); 1025];
    let mut vm = root(code, 10_000_000);
    assert_eq!(vm.fire(), Ok(()));
    assert_eq!(vm.depth(), 1025);
    assert_eq!(vm.history().len(), 1024);
    assert_eq!(vm.status(), VMStatus::ExitedErr(VMError::CallstackOverflow));
    assert_eq!(vm.step(), Ok(()));
    assert_eq!(vm.depth(), 1025);
    assert_eq!(vm.status(), VMStatus::ExitedErr(VMError::CallstackOverflow));
}

#[test]
fn storage_requirement_resolved_after_refused_commitment() {
    let mut vm = root(vec![Instruction::SLoad(word(5)), Instruction::SLoad(word(5)), Instruction::Stop], 10);
    assert_eq!(vm.step(), Err(RequireError::AccountStorage(addr(1), word(5))));
    assert_eq!(vm.step(), Err(RequireError::AccountStorage(addr(1), word(5))));
    let right = AccountCommitment::Storage { address: addr(1), index: word(5), value: word(42) };
    assert_eq!(vm.commit_account(right), Ok(()));
    assert_eq!(vm.step(), Ok(()));
    let wrong = AccountCommitment::Storage { address: addr(1), index: word(5), value: word(43) };
    assert_eq!(vm.commit_account(wrong), Err(CommitError::InvalidCommitment));
    assert_eq!(vm.step(), Ok(()));
    assert_eq!(vm.fire(), Ok(()));
    assert_eq!(vm.status(), VMStatus::ExitedOk);
}

#[test]
fn terminal_status_does_not_change() {
    let mut vm = root(vec![Instruction::Fail(VMError::InvalidOpcode)], 10);
    assert_eq!(vm.fire(), Ok(()));
    assert_eq!(vm.status(), VMStatus::ExitedErr(VMError::InvalidOpcode));
    for _ in 0..5 {
        assert_eq!(vm.step(), Ok(()));
        assert_eq!(vm.status(), VMStatus::ExitedErr(VMError::InvalidOpcode));
        assert_eq!(vm.depth(), 1);
    }
}

#[test]
fn faulted_child_effects_are_dropped_but_gas_is_charged() {
    let mut vm = root(
        vec![
            Instruction::Log(word(1)),
            Instruction::Call(addr(7), 50, 3),
            Instruction::Log(word(2)),
            Instruction::SStore(word(1), word(2)),
            Instruction::Fail(VMError::StackUnderflow),
            Instruction::Stop,
        ],
        100,
    );
    assert_eq!(vm.fire(), Ok(()));
    assert_eq!(vm.status(), VMStatus::ExitedOk);
    assert_eq!(vm.logs().len(), 1);
    assert_eq!(vm.logs()[0].topic, word(1));
    assert!(vm.accounts().is_empty());
    // two root instructions, three child instructions, then the final stop
    assert_eq!(vm.available_gas(), 100 - 2 - 3 - 1);
}

#[test]
fn successful_child_effects_are_kept() {
    let mut vm = root(
        vec![
            Instruction::Call(addr(7), 50, 3),
            Instruction::Log(word(2)),
            Instruction::SStore(word(1), word(0)),
            Instruction::Stop,
            Instruction::Stop,
        ],
        100,
    );
    assert_eq!(vm.fire(), Ok(()));
    assert_eq!(vm.status(), VMStatus::ExitedOk);
    assert_eq!(vm.logs().len(), 1);
    assert_eq!(vm.logs()[0].address, addr(7));
    assert_eq!(vm.accounts().len(), 1);
    assert_eq!(vm.accounts()[0].address, addr(7));
    assert_eq!(vm.refunded_gas(), 1);
}

#[test]
fn commitment_reaches_paused_ancestor() {
    let mut vm = root(
        vec![
            Instruction::Call(addr(7), 50, 1),
            Instruction::BlockHash(word(99)),
            Instruction::BlockHash(word(99)),
            Instruction::Stop,
        ],
        100,
    );
    assert_eq!(vm.fire(), Err(RequireError::Blockhash(word(99))));
    assert_eq!(vm.depth(), 2);
    assert_eq!(vm.commit_blockhash(word(99), word(1234)), Ok(()));
    assert_eq!(vm.fire(), Ok(()));
    assert_eq!(vm.status(), VMStatus::ExitedOk);
}

#[test]
fn identical_commitment_is_accepted_again() {
    let mut vm = root(vec![Instruction::Balance(addr(4)), Instruction::Stop], 10);
    let full = || AccountCommitment::Full { address: addr(4), nonce: word(0), balance: word(10) };
    assert_eq!(vm.commit_account(full()), Ok(()));
    assert_eq!(vm.commit_account(full()), Ok(()));
    let other = AccountCommitment::Full { address: addr(4), nonce: word(0), balance: word(11) };
    assert_eq!(vm.commit_account(other), Err(CommitError::InvalidCommitment));
    assert_eq!(vm.commit_blockhash(word(1), word(2)), Ok(()));
    assert_eq!(vm.commit_blockhash(word(1), word(2)), Ok(()));
    assert_eq!(vm.commit_blockhash(word(1), word(3)), Err(CommitError::InvalidCommitment));
    assert_eq!(vm.fire(), Ok(()));
    assert_eq!(vm.status(), VMStatus::ExitedOk);
}

#[test]
fn code_commitments_compare_bytes() {
    let mut vm = root(vec![Instruction::CodeSize(addr(4)), Instruction::Stop], 10);
    assert_eq!(vm.fire(), Err(RequireError::AccountCode(addr(4))));
    let code = |c: Vec<u8>| AccountCommitment::Code { address: addr(4), code: c };
    assert_eq!(vm.commit_account(code(vec![1, 2])), Ok(()));
    assert_eq!(vm.commit_account(code(vec![1, 2])), Ok(()));
    assert_eq!(vm.commit_account(code(vec![1, 3])), Err(CommitError::InvalidCommitment));
    assert_eq!(vm.fire(), Ok(()));
}

#[test]
fn balance_read_requires_account() {
    let mut vm = root(vec![Instruction::Balance(addr(4)), Instruction::Stop], 10);
    assert_eq!(vm.fire(), Err(RequireError::Account(addr(4))));
    assert_eq!(vm.depth(), 1);
    let full = AccountCommitment::Full { address: addr(4), nonce: word(0), balance: word(10) };
    assert_eq!(vm.commit_account(full), Ok(()));
    assert_eq!(vm.fire(), Ok(()));
    assert_eq!(vm.status(), VMStatus::ExitedOk);
}

#[test]
fn running_out_of_gas_fails() {
    let mut vm = root(vec![Instruction::Output(1), Instruction::Output(2), Instruction::Stop], 2);
    assert_eq!(vm.fire(), Ok(()));
    assert_eq!(vm.status(), VMStatus::ExitedErr(VMError::EmptyGas));
    assert_eq!(vm.out(), &[1u8, 2][..]);
    assert_eq!(vm.available_gas(), 0);
}

#[test]
fn running_past_the_code_exits_ok() {
    let mut vm = root(vec![], 0);
    assert_eq!(vm.fire(), Ok(()));
    assert_eq!(vm.status(), VMStatus::ExitedOk);
}

#[test]
fn create_is_recorded_in_history() {
    let mut vm = root(vec![Instruction::Create(addr(8), 500, 0), Instruction::Stop], 100);
    assert_eq!(vm.fire(), Ok(()));
    assert_eq!(vm.status(), VMStatus::ExitedOk);
    assert_eq!(vm.history().len(), 1);
    assert_eq!(vm.history()[0].address, addr(8));
    assert!(vm.history()[0].code.is_empty());
    // the child gets what the caller has left after the create itself
    assert_eq!(vm.history()[0].gas_limit, 99);
}

#[test]
fn accounts_hold_the_last_value_of_each_slot() {
    let mut vm = root(
        vec![
            Instruction::SStore(word(1), word(5)),
            Instruction::SStore(word(2), word(7)),
            Instruction::SStore(word(1), word(6)),
            Instruction::Stop,
        ],
        10,
    );
    assert_eq!(vm.fire(), Ok(()));
    let accounts = vm.accounts();
    assert_eq!(accounts.len(), 2);
    assert_eq!(accounts[0].address, addr(1));
    assert_eq!(accounts[0].index, word(1));
    assert_eq!(accounts[0].value, word(6));
    assert_eq!(accounts[1].index, word(2));
    assert_eq!(accounts[1].value, word(7));
}

#[test]
fn fire_on_a_finished_transaction_changes_nothing() {
    let mut vm = root(
        vec![Instruction::Call(addr(7), 50, 1), Instruction::Stop, Instruction::Stop],
        100,
    );
    assert_eq!(vm.fire(), Ok(()));
    assert_eq!(vm.status(), VMStatus::ExitedOk);
    let gas = vm.available_gas();
    assert_eq!(vm.fire(), Ok(()));
    assert_eq!(vm.status(), VMStatus::ExitedOk);
    assert_eq!(vm.depth(), 1);
    assert_eq!(vm.history().len(), 1);
    assert_eq!(vm.available_gas(), gas);
}
