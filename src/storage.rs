//! Prepaid storage deposits of the accounts that create streams.
use crate::account::AccountId;
use crate::error::StreamError;
use vstd::prelude::*;

verus! {

/// The storage that about one stream takes, in bytes.
pub const STREAM_STORAGE_BYTES: u128 = 370;

/// The most streams that the largest storage deposit pays for.
pub const MAX_PREPAID_STREAMS: u128 = 20;

/// An account's storage deposit: everything deposited, and the part not
/// yet used by storage.
#[derive(Clone, Copy, Debug, PartialEq, Eq, Structural)]
pub struct StorageBalance {
    pub total: u128,
    pub available: u128,
}

/// The least and the most an account may deposit for storage.
#[derive(Clone, Copy, Debug, PartialEq, Eq, Structural)]
pub struct StorageBalanceBounds {
    pub min: u128,
    pub max: u128,
}

pub struct AccountEntry {
    pub account: AccountId,
    pub balance: StorageBalance,
}

/// The deposit recorded for `name` in `entries`, if any.
pub open spec fn deposit_of(entries: Seq<AccountEntry>, name: Seq<char>) -> Option<StorageBalance>
    decreases entries.len(),
{
    if entries.len() == 0 {
        None
    } else if entries.last().account@ == name {
        Some(entries.last().balance)
    } else {
        deposit_of(entries.drop_last(), name)
    }
}

pub open spec fn accounts_unique(entries: Seq<AccountEntry>) -> bool {
    forall|i: int, j: int|
        0 <= i < j < entries.len() ==> entries[i].account@ != entries[j].account@
}

proof fn lemma_deposit_absent(entries: Seq<AccountEntry>, name: Seq<char>)
    requires
        forall|i: int| 0 <= i < entries.len() ==> entries[i].account@ != name,
    ensures
        deposit_of(entries, name) is None,
    decreases entries.len(),
{
    if entries.len() > 0 {
        lemma_deposit_absent(entries.drop_last(), name);
    }
}

proof fn lemma_deposit_at(entries: Seq<AccountEntry>, i: int)
    requires
        accounts_unique(entries),
        0 <= i < entries.len(),
    ensures
        deposit_of(entries, entries[i].account@) == Some(entries[i].balance),
    decreases entries.len(),
{
    if i < entries.len() - 1 {
        lemma_deposit_at(entries.drop_last(), i);
    }
}

proof fn lemma_deposit_update(entries: Seq<AccountEntry>, i: int, e: AccountEntry, name: Seq<char>)
    requires
        accounts_unique(entries),
        0 <= i < entries.len(),
        e.account@ == entries[i].account@,
    ensures
        deposit_of(entries.update(i, e), name) == if name == e.account@ {
            Some(e.balance)
        } else {
            deposit_of(entries, name)
        },
    decreases entries.len(),
{
    let u = entries.update(i, e);
    if i < entries.len() - 1 {
        assert(u.drop_last() =~= entries.drop_last().update(i, e));
        lemma_deposit_update(entries.drop_last(), i, e, name);
        if u.last().account@ == name {
            assert(entries.last().account@ != entries[i].account@);
        }
    } else {
        assert(u.drop_last() =~= entries.drop_last());
    }
}

proof fn lemma_deposit_remove(entries: Seq<AccountEntry>, i: int, name: Seq<char>)
    requires
        accounts_unique(entries),
        0 <= i < entries.len(),
    ensures
        deposit_of(entries.remove(i), name) == if name == entries[i].account@ {
            None
        } else {
            deposit_of(entries, name)
        },
    decreases entries.len(),
{
    let r = entries.remove(i);
    if i < entries.len() - 1 {
        assert(r.drop_last() =~= entries.drop_last().remove(i));
        lemma_deposit_remove(entries.drop_last(), i, name);
        if r.last().account@ == name {
            assert(entries.last().account@ != entries[i].account@);
        }
    } else {
        assert(r =~= entries.drop_last());
        if name == entries[i].account@ {
            lemma_deposit_absent(r, name);
        }
    }
}

/// The registered accounts' deposits, and the storage one account record takes.
pub struct StorageView {
    pub deposits: Map<Seq<char>, StorageBalance>,
    pub account_storage_usage: u64,
}

/// The deposits that accounts made for the storage they use.
pub struct StorageAccounts {
    entries: Vec<AccountEntry>,
    account_storage_usage: u64,
}

impl View for StorageAccounts {
    type V = StorageView;

    closed spec fn view(&self) -> StorageView {
        StorageView {
            deposits: Map::new(
                |n: Seq<char>| deposit_of(self.entries@, n) is Some,
                |n: Seq<char>| deposit_of(self.entries@, n)->Some_0,
            ),
            account_storage_usage: self.account_storage_usage,
        }
    }
}

/// The bounds on a storage deposit for a given cost per byte, when they fit.
pub open spec fn bounds_for(usage: u64, byte_cost: u128) -> Option<StorageBalanceBounds> {
    let account = usage * byte_cost;
    let stream = STREAM_STORAGE_BYTES * byte_cost;
    if account + stream * MAX_PREPAID_STREAMS > u128::MAX {
        None
    } else {
        Some(
            StorageBalanceBounds {
                min: (account + stream) as u128,
                max: (stream * MAX_PREPAID_STREAMS + account) as u128,
            },
        )
    }
}

impl StorageAccounts {
    pub closed spec fn wf(&self) -> bool {
        &&& accounts_unique(self.entries@)
        &&& forall|i: int|
            0 <= i < self.entries@.len() ==> #[trigger] self.entries@[i].balance.available
                <= self.entries@[i].balance.total
    }

    /// No account registered yet; one account record takes
    /// `account_storage_usage` bytes.
    pub fn new(account_storage_usage: u64) -> (r: StorageAccounts)
        ensures
            r.wf(),
            r@.deposits == Map::<Seq<char>, StorageBalance>::empty(),
            r@.account_storage_usage == account_storage_usage,
    {
        let r = StorageAccounts { entries: Vec::new(), account_storage_usage };
        assert(r@.deposits =~= Map::<Seq<char>, StorageBalance>::empty());
        r
    }

    fn find(&self, account: &AccountId) -> (r: Option<usize>)
        requires
            self.wf(),
        ensures
            match r {
                Some(i) => i < self.entries@.len() && self.entries@[i as int].account@ == account@
                    && deposit_of(self.entries@, account@) == Some(self.entries@[i as int].balance)
                    && self.entries@[i as int].balance.available <= self.entries@[i as int].balance.total,
                None => deposit_of(self.entries@, account@) is None,
            },
    {
        let mut i: usize = 0;
        while i < self.entries.len()
            invariant
                self.wf(),
                i <= self.entries@.len(),
                forall|j: int| 0 <= j < i ==> self.entries@[j].account@ != account@,
            decreases self.entries@.len() - i,
        {
            if self.entries[i].account == *account {
                proof {
                    lemma_deposit_at(self.entries@, i as int);
                }
                return Some(i);
            }
            i = i + 1;
        }
        proof {
            lemma_deposit_absent(self.entries@, account@);
        }
        None
    }

    /// The deposit of `account_id`, if it is registered.
    pub fn storage_balance_of(&self, account_id: &AccountId) -> (r: Option<StorageBalance>)
        requires
            self.wf(),
        ensures
            r == if self@.deposits.contains_key(account_id@) {
                Some(self@.deposits[account_id@])
            } else {
                None
            },
            r matches Some(b) ==> b.available <= b.total,
    {
        match self.find(account_id) {
            Some(i) => Some(self.entries[i].balance),
            None => None,
        }
    }

    /// The deposit of `account` becomes `balance`.
    fn put(&mut self, account: &AccountId, balance: StorageBalance)
        requires
            old(self).wf(),
            balance.available <= balance.total,
        ensures
            final(self).wf(),
            final(self)@ == (StorageView {
                deposits: old(self)@.deposits.insert(account@, balance),
                ..old(self)@
            }),
    {
        let ghost before = self.entries@;
        let e = AccountEntry { account: account.clone(), balance };
        match self.find(account) {
            Some(i) => {
                self.entries.set(i, e);
                assert forall|n: Seq<char>| #[trigger] deposit_of(self.entries@, n) == (if n
                    == account@ {
                    Some(balance)
                } else {
                    deposit_of(before, n)
                }) by {
                    lemma_deposit_update(before, i as int, e, n);
                }
            },
            None => {
                self.entries.push(e);
                assert(self.entries@.drop_last() =~= before);
                assert forall|i: int, j: int|
                    0 <= i < j < self.entries@.len() implies self.entries@[i].account@
                    != self.entries@[j].account@ by {
                    if j == before.len() && self.entries@[i].account@ == account@ {
                        lemma_deposit_at(before, i);
                    }
                }
            },
        }
        assert(self@.deposits =~= deposits_of(before).insert(account@, balance));
    }

    /// The bounds on a storage deposit at `byte_cost` per byte: an account
    /// record and one stream at least, an account record and twenty
    /// streams at most.
    pub fn storage_balance_bounds(&self, byte_cost: u128) -> (r: Result<StorageBalanceBounds, StreamError>)
        ensures
            r == match bounds_for(self@.account_storage_usage, byte_cost) {
                Some(b) => Ok::<StorageBalanceBounds, StreamError>(b),
                None => Err(StreamError::AmountOverflow),
            },
    {
        let account = match (self.account_storage_usage as u128).checked_mul(byte_cost) {
            Some(a) => a,
            None => return Err(StreamError::AmountOverflow),
        };
        let stream = match STREAM_STORAGE_BYTES.checked_mul(byte_cost) {
            Some(s) => s,
            None => return Err(StreamError::AmountOverflow),
        };
        let most = match stream.checked_mul(MAX_PREPAID_STREAMS) {
            Some(m) => m,
            None => return Err(StreamError::AmountOverflow),
        };
        if most > u128::MAX - account {
            return Err(StreamError::AmountOverflow);
        }
        Ok(StorageBalanceBounds { min: account + stream, max: most + account })
    }

    /// `amount` is deposited for the storage of `account_id`. A registered
    /// account's deposit grows; a new account must bring at least the
    /// minimum, and its available part is what remains after its own
    /// record is paid for.
    pub fn storage_deposit(&mut self, account_id: &AccountId, amount: u128, byte_cost: u128) -> (r:
        Result<StorageBalance, StreamError>)
        requires
            old(self).wf(),
        ensures
            final(self).wf(),
            r matches Err(_) ==> final(self)@ == old(self)@,
            amount == 0 ==> r == Err::<StorageBalance, StreamError>(StreamError::NoDeposit),
            amount > 0 && old(self)@.deposits.contains_key(account_id@) ==> {
                let b = old(self)@.deposits[account_id@];
                if b.total + amount > u128::MAX || b.available + amount > u128::MAX {
                    r == Err::<StorageBalance, StreamError>(StreamError::AmountOverflow)
                } else {
                    let nb = StorageBalance {
                        total: (b.total + amount) as u128,
                        available: (b.available + amount) as u128,
                    };
                    &&& r == Ok::<StorageBalance, StreamError>(nb)
                    &&& final(self)@ == (StorageView {
                        deposits: old(self)@.deposits.insert(account_id@, nb),
                        ..old(self)@
                    })
                }
            },
            amount > 0 && !old(self)@.deposits.contains_key(account_id@) ==> match bounds_for(
                old(self)@.account_storage_usage,
                byte_cost,
            ) {
                None => r == Err::<StorageBalance, StreamError>(StreamError::AmountOverflow),
                Some(bounds) => if amount < bounds.min {
                    r == Err::<StorageBalance, StreamError>(StreamError::DepositBelowMinimum)
                } else {
                    let nb = StorageBalance {
                        total: amount,
                        available: (amount - old(self)@.account_storage_usage * byte_cost) as u128,
                    };
                    &&& r == Ok::<StorageBalance, StreamError>(nb)
                    &&& final(self)@ == (StorageView {
                        deposits: old(self)@.deposits.insert(account_id@, nb),
                        ..old(self)@
                    })
                },
            },
    {
        if amount == 0 {
            return Err(StreamError::NoDeposit);
        }
        match self.storage_balance_of(account_id) {
            Some(b) => {
                if amount > u128::MAX - b.total || amount > u128::MAX - b.available {
                    return Err(StreamError::AmountOverflow);
                }
                let nb = StorageBalance { total: b.total + amount, available: b.available + amount };
                self.put(account_id, nb);
                Ok(nb)
            },
            None => {
                let bounds = self.storage_balance_bounds(byte_cost)?;
                if amount < bounds.min {
                    return Err(StreamError::DepositBelowMinimum);
                }
                let own = (self.account_storage_usage as u128) * byte_cost;
                let nb = StorageBalance { total: amount, available: amount - own };
                self.put(account_id, nb);
                Ok(nb)
            },
        }
    }

    /// `caller` takes back `amount` of the available part of its deposit,
    /// or all of it when no amount is given. Returns the new deposit and
    /// the amount to refund.
    pub fn storage_withdraw(&mut self, caller: &AccountId, amount: Option<u128>) -> (r: Result<
        (StorageBalance, u128),
        StreamError,
    >)
        requires
            old(self).wf(),
        ensures
            final(self).wf(),
            r matches Err(_) ==> final(self)@ == old(self)@,
            !old(self)@.deposits.contains_key(caller@) ==> r == Err::<(StorageBalance, u128), StreamError>(
                StreamError::NotRegistered,
            ),
            old(self)@.deposits.contains_key(caller@) ==> {
                let b = old(self)@.deposits[caller@];
                let refund = match amount {
                    Some(a) => a,
                    None => b.available,
                };
                if refund > b.available {
                    r == Err::<(StorageBalance, u128), StreamError>(StreamError::ExceedsAvailable)
                } else {
                    let nb = StorageBalance {
                        total: (b.total - refund) as u128,
                        available: (b.available - refund) as u128,
                    };
                    &&& r == Ok::<(StorageBalance, u128), StreamError>((nb, refund))
                    &&& final(self)@ == (StorageView {
                        deposits: old(self)@.deposits.insert(caller@, nb),
                        ..old(self)@
                    })
                }
            },
    {
        let b = match self.storage_balance_of(caller) {
            Some(b) => b,
            None => return Err(StreamError::NotRegistered),
        };
        let refund = match amount {
            Some(a) => a,
            None => b.available,
        };
        if refund > b.available {
            return Err(StreamError::ExceedsAvailable);
        }
        let nb = StorageBalance { total: b.total - refund, available: b.available - refund };
        self.put(caller, nb);
        Ok((nb, refund))
    }

    /// `caller` leaves: its record is removed and the available part of its
    /// deposit is to be refunded. Returns whether it was registered, and the
    /// refund. Forced removal is refused.
    pub fn storage_unregister(&mut self, caller: &AccountId, force: Option<bool>) -> (r: Result<
        (bool, u128),
        StreamError,
    >)
        requires
            old(self).wf(),
        ensures
            final(self).wf(),
            force == Some(true) ==> r == Err::<(bool, u128), StreamError>(StreamError::ForceUnregister)
                && final(self)@ == old(self)@,
            force != Some(true) && !old(self)@.deposits.contains_key(caller@) ==> r == Ok::<
                (bool, u128),
                StreamError,
            >((false, 0)) && final(self)@ == old(self)@,
            force != Some(true) && old(self)@.deposits.contains_key(caller@) ==> r == Ok::<
                (bool, u128),
                StreamError,
            >((true, old(self)@.deposits[caller@].available)) && final(self)@ == (StorageView {
                deposits: old(self)@.deposits.remove(caller@),
                ..old(self)@
            }),
    {
        if force == Some(true) {
            return Err(StreamError::ForceUnregister);
        }
        match self.find(caller) {
            None => Ok((false, 0)),
            Some(i) => {
                let ghost before = self.entries@;
                let e = self.entries.remove(i);
                assert forall|n: Seq<char>| #[trigger] deposit_of(self.entries@, n) == (if n
                    == caller@ {
                    None
                } else {
                    deposit_of(before, n)
                }) by {
                    lemma_deposit_remove(before, i as int, n);
                }
                assert(self@.deposits =~= deposits_of(before).remove(caller@));
                assert forall|a: int|
                    0 <= a < self.entries@.len() implies #[trigger] self.entries@[a].balance.available
                    <= self.entries@[a].balance.total by {
                    if a < i {
                        assert(self.entries@[a] == before[a]);
                    } else {
                        assert(self.entries@[a] == before[a + 1]);
                    }
                }
                assert forall|a: int, b: int|
                    0 <= a < b < self.entries@.len() implies self.entries@[a].account@
                    != self.entries@[b].account@ by {
                    let a2 = if a < i {
                        a
                    } else {
                        a + 1
                    };
                    let b2 = if b < i {
                        b
                    } else {
                        b + 1
                    };
                    assert(self.entries@[a] == before[a2]);
                    assert(self.entries@[b] == before[b2]);
                }
                Ok((true, e.balance.available))
            },
        }
    }

    /// The `bytes` of storage a new stream of `account_id` took, at
    /// `byte_cost` per byte, are paid from the available part of its deposit.
    pub fn charge_storage(&mut self, account_id: &AccountId, bytes: u64, byte_cost: u128) -> (r:
        Result<StorageBalance, StreamError>)
        requires
            old(self).wf(),
        ensures
            final(self).wf(),
            r matches Err(_) ==> final(self)@ == old(self)@,
            !old(self)@.deposits.contains_key(account_id@) ==> r == Err::<StorageBalance, StreamError>(
                StreamError::NotRegistered,
            ),
            old(self)@.deposits.contains_key(account_id@) ==> {
                let b = old(self)@.deposits[account_id@];
                let cost = bytes * byte_cost;
                if b.available < cost {
                    r == Err::<StorageBalance, StreamError>(StreamError::InsufficientStorage)
                } else {
                    let nb = StorageBalance { available: (b.available - cost) as u128, ..b };
                    &&& r == Ok::<StorageBalance, StreamError>(nb)
                    &&& final(self)@ == (StorageView {
                        deposits: old(self)@.deposits.insert(account_id@, nb),
                        ..old(self)@
                    })
                }
            },
    {
        let b = match self.storage_balance_of(account_id) {
            Some(b) => b,
            None => return Err(StreamError::NotRegistered),
        };
        let cost = match (bytes as u128).checked_mul(byte_cost) {
            Some(c) => c,
            None => return Err(StreamError::InsufficientStorage),
        };
        if b.available < cost {
            return Err(StreamError::InsufficientStorage);
        }
        let nb = StorageBalance { total: b.total, available: b.available - cost };
        self.put(account_id, nb);
        Ok(nb)
    }
}

pub open spec fn deposits_of(entries: Seq<AccountEntry>) -> Map<Seq<char>, StorageBalance> {
    Map::new(
        |n: Seq<char>| deposit_of(entries, n) is Some,
        |n: Seq<char>| deposit_of(entries, n)->Some_0,
    )
}

} // verus!
