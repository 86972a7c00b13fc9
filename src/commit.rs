use vstd::prelude::*;
use crate::types::{Address, CommitError, M256};

verus! {

/// An externally resolved fact about an account.
#[derive(Debug)]
pub enum AccountCommitment {
    Full { address: Address, nonce: M256, balance: M256 },
    Code { address: Address, code: Vec<u8> },
    Storage { address: Address, index: M256, value: M256 },
}

/// What an account commitment is a fact about.
#[derive(Clone, Copy, Debug, PartialEq, Eq, Structural)]
pub enum CommitKey {
    Account(Address),
    Code(Address),
    Storage(Address, M256),
}

pub open spec fn key_of(c: AccountCommitment) -> CommitKey {
    match c {
        AccountCommitment::Full { address, .. } => CommitKey::Account(address),
        AccountCommitment::Code { address, .. } => CommitKey::Code(address),
        AccountCommitment::Storage { address, index, .. } => CommitKey::Storage(address, index),
    }
}

/// Two commitments state the same fact.
pub open spec fn same_fact(a: AccountCommitment, b: AccountCommitment) -> bool {
    match (a, b) {
        (
            AccountCommitment::Full { address: a1, nonce: n1, balance: b1 },
            AccountCommitment::Full { address: a2, nonce: n2, balance: b2 },
        ) => a1 == a2 && n1 == n2 && b1 == b2,
        (
            AccountCommitment::Code { address: a1, code: c1 },
            AccountCommitment::Code { address: a2, code: c2 },
        ) => a1 == a2 && c1@ == c2@,
        (
            AccountCommitment::Storage { address: a1, index: i1, value: v1 },
            AccountCommitment::Storage { address: a2, index: i2, value: v2 },
        ) => a1 == a2 && i1 == i2 && v1 == v2,
        _ => false,
    }
}

/// Some accepted account commitment has key `k`.
pub open spec fn has_key(s: Seq<AccountCommitment>, k: CommitKey) -> bool {
    exists|i: int| 0 <= i < s.len() && #[trigger] key_of(s[i]) == k
}

/// Some accepted account commitment has the key of `c` and states another fact.
pub open spec fn contradicts(s: Seq<AccountCommitment>, c: AccountCommitment) -> bool {
    exists|i: int| 0 <= i < s.len() && key_of(#[trigger] s[i]) == key_of(c) && !same_fact(s[i], c)
}

/// Some accepted block hash is for block `n`.
pub open spec fn has_number(s: Seq<(M256, M256)>, n: M256) -> bool {
    exists|i: int| 0 <= i < s.len() && (#[trigger] s[i]).0 == n
}

/// Some accepted block hash is for block `n` and differs from `h`.
pub open spec fn contradicts_hash(s: Seq<(M256, M256)>, n: M256, h: M256) -> bool {
    exists|i: int| 0 <= i < s.len() && (#[trigger] s[i]).0 == n && s[i].1 != h
}

fn bytes_equal(a: &Vec<u8>, b: &Vec<u8>) -> (r: bool)
    ensures
        r == (a@ == b@),
{
    if a.len() != b.len() {
        return false;
    }
    let mut i: usize = 0;
    while i < a.len()
        invariant
            a.len() == b.len(),
            0 <= i <= a.len(),
            forall|j: int| 0 <= j < i ==> a@[j] == b@[j],
        decreases a.len() - i,
    {
        if a[i] != b[i] {
            return false;
        }
        i += 1;
    }
    assert(a@ =~= b@);
    true
}

impl AccountCommitment {
    pub fn key(&self) -> (r: CommitKey)
        ensures
            r == key_of(*self),
    {
        match self {
            AccountCommitment::Full { address, .. } => CommitKey::Account(*address),
            AccountCommitment::Code { address, .. } => CommitKey::Code(*address),
            AccountCommitment::Storage { address, index, .. } => CommitKey::Storage(*address, *index),
        }
    }

    pub fn same_as(&self, other: &AccountCommitment) -> (r: bool)
        ensures
            r == same_fact(*self, *other),
    {
        match (self, other) {
            (
                AccountCommitment::Full { address: a1, nonce: n1, balance: b1 },
                AccountCommitment::Full { address: a2, nonce: n2, balance: b2 },
            ) => *a1 == *a2 && *n1 == *n2 && *b1 == *b2,
            (
                AccountCommitment::Code { address: a1, code: c1 },
                AccountCommitment::Code { address: a2, code: c2 },
            ) => *a1 == *a2 && bytes_equal(c1, c2),
            (
                AccountCommitment::Storage { address: a1, index: i1, value: v1 },
                AccountCommitment::Storage { address: a2, index: i2, value: v2 },
            ) => *a1 == *a2 && *i1 == *i2 && *v1 == *v2,
            _ => false,
        }
    }
}

/// The facts about the outside world accepted so far in one transaction.
/// Every frame of the transaction reads them, so a fact committed while a
/// frame is paused is visible to it and to all its ancestors.
pub struct Commitments {
    accounts: Vec<AccountCommitment>,
    blockhashes: Vec<(M256, M256)>,
}

impl Commitments {
    pub closed spec fn accounts(&self) -> Seq<AccountCommitment> {
        self.accounts@
    }

    pub closed spec fn blockhashes(&self) -> Seq<(M256, M256)> {
        self.blockhashes@
    }

    /// At most one fact is held per key.
    pub open spec fn wf(&self) -> bool {
        &&& forall|i: int, j: int|
            0 <= i < j < self.accounts().len() ==> key_of(#[trigger] self.accounts()[i]) != key_of(
                #[trigger] self.accounts()[j],
            )
        &&& forall|i: int, j: int|
            0 <= i < j < self.blockhashes().len() ==> (#[trigger] self.blockhashes()[i]).0 != (
            #[trigger] self.blockhashes()[j]).0
    }

    pub open spec fn knows(&self, k: CommitKey) -> bool {
        has_key(self.accounts(), k)
    }

    pub open spec fn knows_blockhash(&self, n: M256) -> bool {
        has_number(self.blockhashes(), n)
    }

    pub fn new() -> (r: Commitments)
        ensures
            r.wf(),
            r.accounts() == Seq::<AccountCommitment>::empty(),
            r.blockhashes() == Seq::<(M256, M256)>::empty(),
    {
        Commitments { accounts: Vec::new(), blockhashes: Vec::new() }
    }

    /// The position of the fact with key `k`, if one is held.
    fn find(&self, k: CommitKey) -> (r: Option<usize>)
        ensures
            match r {
                Some(i) => i < self.accounts().len() && key_of(self.accounts()[i as int]) == k,
                None => !has_key(self.accounts(), k),
            },
    {
        let mut i: usize = 0;
        while i < self.accounts.len()
            invariant
                0 <= i <= self.accounts@.len(),
                forall|j: int| 0 <= j < i ==> key_of(#[trigger] self.accounts@[j]) != k,
            decreases self.accounts.len() - i,
        {
            if self.accounts[i].key() == k {
                return Some(i);
            }
            i += 1;
        }
        None
    }

    pub fn knows_key(&self, k: CommitKey) -> (r: bool)
        ensures
            r == self.knows(k),
    {
        self.find(k).is_some()
    }

    pub fn knows_number(&self, n: M256) -> (r: bool)
        ensures
            r == self.knows_blockhash(n),
    {
        let mut i: usize = 0;
        while i < self.blockhashes.len()
            invariant
                0 <= i <= self.blockhashes@.len(),
                forall|j: int| 0 <= j < i ==> (#[trigger] self.blockhashes@[j]).0 != n,
            decreases self.blockhashes.len() - i,
        {
            if self.blockhashes[i].0 == n {
                return true;
            }
            i += 1;
        }
        false
    }

    /// Accepts an account fact. A fact for a new key is added; one identical to
    /// the fact held for its key changes nothing; a contradicting one is refused.
    pub fn commit_account(&mut self, c: AccountCommitment) -> (r: Result<(), CommitError>)
        requires
            old(self).wf(),
        ensures
            final(self).wf(),
            r is Err <==> contradicts(old(self).accounts(), c),
            r is Err ==> *final(self) == *old(self),
            r is Ok && has_key(old(self).accounts(), key_of(c)) ==> *final(self) == *old(self),
            r is Ok && !has_key(old(self).accounts(), key_of(c)) ==> final(self).accounts()
                == old(self).accounts().push(c),
            final(self).blockhashes() == old(self).blockhashes(),
    {
        let k = c.key();
        match self.find(k) {
            Some(i) => {
                if self.accounts[i].same_as(&c) {
                    proof {
                        assert forall|j: int|
                            0 <= j < self.accounts@.len() && key_of(#[trigger] self.accounts@[j])
                                == key_of(c) implies same_fact(self.accounts@[j], c) by {
                            if j != i {
                                if j < i {
                                    assert(key_of(self.accounts@[j]) != key_of(self.accounts@[i as int]));
                                } else {
                                    assert(key_of(self.accounts@[i as int]) != key_of(self.accounts@[j]));
                                }
                            }
                        }
                    }
                    Ok(())
                } else {
                    assert(key_of(self.accounts@[i as int]) == key_of(c));
                    Err(CommitError::InvalidCommitment)
                }
            },
            None => {
                self.accounts.push(c);
                proof {
                    assert forall|i: int, j: int|
                        0 <= i < j < self.accounts().len() implies key_of(
                            #[trigger] self.accounts()[i],
                        ) != key_of(#[trigger] self.accounts()[j]) by {
                        assert(self.accounts()[i] == old(self).accounts()[i]);
                        if j == self.accounts().len() - 1 {
                            assert(key_of(old(self).accounts()[i]) != k);
                        } else {
                            assert(self.accounts()[j] == old(self).accounts()[j]);
                        }
                    }
                    assert(self.blockhashes() == old(self).blockhashes());
                    assert(self.wf());
                }
                Ok(())
            },
        }
    }

    /// Accepts the hash of block `number`, under the same rules as account facts.
    pub fn commit_blockhash(&mut self, number: M256, hash: M256) -> (r: Result<(), CommitError>)
        requires
            old(self).wf(),
        ensures
            final(self).wf(),
            r is Err <==> contradicts_hash(old(self).blockhashes(), number, hash),
            r is Err ==> *final(self) == *old(self),
            r is Ok && has_number(old(self).blockhashes(), number) ==> *final(self) == *old(self),
            r is Ok && !has_number(old(self).blockhashes(), number) ==> final(self).blockhashes()
                == old(self).blockhashes().push((number, hash)),
            final(self).accounts() == old(self).accounts(),
    {
        let mut i: usize = 0;
        while i < self.blockhashes.len()
            invariant
                0 <= i <= self.blockhashes@.len(),
                *self == *old(self),
                self.wf(),
                forall|j: int| 0 <= j < i ==> (#[trigger] self.blockhashes@[j]).0 != number,
            decreases self.blockhashes.len() - i,
        {
            if self.blockhashes[i].0 == number {
                if self.blockhashes[i].1 == hash {
                    proof {
                        assert forall|j: int|
                            0 <= j < self.blockhashes@.len() && (#[trigger] self.blockhashes@[j]).0
                                == number implies self.blockhashes@[j].1 == hash by {
                            if j != i {
                                if j > i {
                                    assert(self.blockhashes()[i as int].0 != self.blockhashes()[j].0);
                                }
                            }
                        }
                    }
                    return Ok(());
                } else {
                    assert(self.blockhashes@[i as int].0 == number);
                    return Err(CommitError::InvalidCommitment);
                }
            }
            i += 1;
        }
        self.blockhashes.push((number, hash));
        proof {
            assert forall|a: int, b: int|
                0 <= a < b < self.blockhashes().len() implies (#[trigger] self.blockhashes()[a]).0
                != (#[trigger] self.blockhashes()[b]).0 by {
                assert(self.blockhashes()[a] == old(self).blockhashes()[a]);
                if b == self.blockhashes().len() - 1 {
                    assert(old(self).blockhashes()[a].0 != number);
                } else {
                    assert(self.blockhashes()[b] == old(self).blockhashes()[b]);
                }
            }
        }
        Ok(())
    }
}

} // verus!
