//! The balance-ledger collaborator: the external system of record for account
//! balances and atomic value transfers. The allowance ledger never moves funds
//! itself; it delegates to an implementation of [`BalanceLedger`] and relies
//! only on the contract stated here: a transfer either fully applies or has no
//! effect at all.

use vstd::prelude::*;

verus! {

/// An error reported by the balance ledger. The ledger applies its own rules
/// (sufficient funds, arithmetic bounds); the allowance ledger propagates
/// these errors unchanged and touches no state when one is reported.
#[derive(Clone, Copy, Debug, PartialEq, Eq, Structural)]
pub enum BalanceError {
    /// The source account does not hold the requested amount.
    InsufficientBalance,
    /// Crediting the destination would exceed the balance domain.
    Overflow,
}

/// The observable effect of a successful `transfer(from, to, amount)`:
/// `amount` left `from`, arrived at `to`, and every other account is
/// untouched. A transfer from an account to itself moves nothing.
pub open spec fn moved<B: BalanceLedger>(pre: B, post: B, from: u64, to: u64, amount: u64) -> bool {
    if from == to {
        forall|a: u64| post.balance_of(a) == pre.balance_of(a)
    } else {
        &&& post.balance_of(from) == pre.balance_of(from) - amount
        &&& post.balance_of(to) == pre.balance_of(to) + amount
        &&& forall|a: u64| a != from && a != to ==> post.balance_of(a) == pre.balance_of(a)
    }
}

/// The interface the allowance ledger needs from the balance ledger. A host
/// environment supplies its own implementation; [`InMemoryBalances`] below is
/// a verified one.
///
/// The ledger decides for itself when a transfer succeeds (it has its own
/// existence and bounds rules), so the contract promises nothing about which
/// outcome occurs — only what each outcome means: success moves exactly
/// `amount` and nothing else; failure leaves every balance unchanged.
pub trait BalanceLedger: Sized {
    /// The balance the ledger currently records for `account`; zero for an
    /// account it has never seen.
    spec fn balance_of(&self, account: u64) -> u64;

    /// Atomically move `amount` from `from` to `to`, or report an error and
    /// leave every balance as it was.
    fn transfer(&mut self, from: u64, to: u64, amount: u64) -> (r: Result<(), BalanceError>)
        ensures
            r is Ok && from != to ==> final(self).balance_of(from) == old(self).balance_of(from)
                - amount,
            r is Ok && from != to ==> final(self).balance_of(to) == old(self).balance_of(to)
                + amount,
            r is Ok && from != to ==> forall|a: u64|
                a != from && a != to ==> final(self).balance_of(a) == old(self).balance_of(a),
            r is Ok && from == to ==> forall|a: u64|
                final(self).balance_of(a) == old(self).balance_of(a),
            r is Err ==> forall|a: u64| final(self).balance_of(a) == old(self).balance_of(a),
    ;
}

/// One stored balance record.
struct BalanceRecord {
    account: u64,
    amount: u64,
}

/// The balance the record list associates with `account`: the first matching
/// record's amount, or zero when no record exists.
spec fn balance_lookup(records: Seq<BalanceRecord>, account: u64) -> u64
    decreases records.len(),
{
    if records.len() == 0 {
        0u64
    } else if records[0].account == account {
        records[0].amount
    } else {
        balance_lookup(records.drop_first(), account)
    }
}

/// Overwriting the first record of an account changes the balance the record
/// list associates with that account and with no other, provided no earlier
/// record carries it.
proof fn lemma_balance_update(records: Seq<BalanceRecord>, i: int, r: BalanceRecord)
    requires
        0 <= i < records.len(),
        forall|j: int| 0 <= j < i ==> records[j].account != r.account,
        records[i].account == r.account,
    ensures
        balance_lookup(records.update(i, r), r.account) == r.amount,
        forall|a: u64|
            a != r.account ==> balance_lookup(records.update(i, r), a) == balance_lookup(
                records,
                a,
            ),
    decreases i,
{
    let t = records.update(i, r);
    if i == 0 {
        assert(t[0] == r);
        assert(t.drop_first() =~= records.drop_first());
    } else {
        assert(t[0] == records[0]);
        assert(t.drop_first() =~= records.drop_first().update(i - 1, r));
        assert forall|j: int| 0 <= j < i - 1 implies records.drop_first()[j].account
            != r.account by {
            assert(records.drop_first()[j] == records[j + 1]);
        }
        lemma_balance_update(records.drop_first(), i - 1, r);
        assert(records[0].account != r.account);
        assert forall|a: u64| a != r.account implies balance_lookup(t, a) == balance_lookup(
            records,
            a,
        ) by {
            if records[0].account != a {
                assert(balance_lookup(t, a) == balance_lookup(t.drop_first(), a));
                assert(balance_lookup(records, a) == balance_lookup(records.drop_first(), a));
            }
        }
    }
}

/// Appending a record for an account no existing record carries changes the
/// balance the record list associates with that account and with no other.
proof fn lemma_balance_push(records: Seq<BalanceRecord>, r: BalanceRecord)
    requires
        forall|j: int| 0 <= j < records.len() ==> records[j].account != r.account,
    ensures
        balance_lookup(records.push(r), r.account) == r.amount,
        forall|a: u64|
            a != r.account ==> balance_lookup(records.push(r), a) == balance_lookup(records, a),
    decreases records.len(),
{
    let t = records.push(r);
    if records.len() == 0 {
        assert(t[0] == r);
        assert(t.drop_first() =~= Seq::<BalanceRecord>::empty());
        assert forall|a: u64| a != r.account implies balance_lookup(t, a) == balance_lookup(
            records,
            a,
        ) by {
            assert(t[0].account != a);
            assert(balance_lookup(t, a) == balance_lookup(t.drop_first(), a));
        }
    } else {
        assert(t[0] == records[0]);
        assert(t.drop_first() =~= records.drop_first().push(r));
        assert forall|j: int| 0 <= j < records.drop_first().len() implies records.drop_first()[j].account != r.account by {
            assert(records.drop_first()[j] == records[j + 1]);
        }
        lemma_balance_push(records.drop_first(), r);
        assert(records[0].account != r.account);
        assert forall|a: u64| a != r.account implies balance_lookup(t, a) == balance_lookup(
            records,
            a,
        ) by {
            if records[0].account != a {
                assert(balance_lookup(t, a) == balance_lookup(t.drop_first(), a));
                assert(balance_lookup(records, a) == balance_lookup(records.drop_first(), a));
            }
        }
    }
}

/// A verified in-memory balance ledger: enough of a system of record to run
/// the allowance ledger against. Its own rule is sufficiency alone — a
/// transfer fails when the source lacks the funds or the destination's
/// balance would leave the amount domain.
pub struct InMemoryBalances {
    records: Vec<BalanceRecord>,
}

impl InMemoryBalances {
    /// An empty ledger: every account stands at zero.
    pub fn new() -> (b: InMemoryBalances)
        ensures
            forall|a: u64| b.balance_of(a) == 0,
    {
        InMemoryBalances { records: Vec::new() }
    }

    /// Overwrite the record of `account` with `amount`: the raw storage
    /// write shared by the initialization path and the transfer path.
    fn set_record(&mut self, account: u64, amount: u64)
        ensures
            final(self).balance_of(account) == amount,
            forall|a: u64| a != account ==> final(self).balance_of(a) == old(self).balance_of(a),
    {
        let n = self.records.len();
        let mut i: usize = 0;
        while i < n
            invariant
                i <= n,
                *self == *old(self),
                n == self.records.len(),
                forall|j: int| 0 <= j < i ==> self.records@[j].account != account,
            decreases n - i,
        {
            if self.records[i].account == account {
                self.records[i] = BalanceRecord { account, amount };
                proof {
                    lemma_balance_update(
                        old(self).records@,
                        i as int,
                        BalanceRecord { account, amount },
                    );
                }
                return ;
            }
            i = i + 1;
        }
        self.records.push(BalanceRecord { account, amount });
        proof {
            lemma_balance_push(old(self).records@, BalanceRecord { account, amount });
        }
    }

    /// Set the balance of `account` to `amount` outright: the trusted
    /// initialization path, not a transfer.
    pub fn set_balance(&mut self, account: u64, amount: u64)
        ensures
            final(self).balance_of(account) == amount,
            forall|a: u64| a != account ==> final(self).balance_of(a) == old(self).balance_of(a),
    {
        self.set_record(account, amount);
    }

    /// The total balance the ledger records for `account`; zero for an
    /// account it has never seen.
    pub fn total_balance(&self, account: u64) -> (amount: u64)
        ensures
            amount == self.balance_of(account),
    {
        let n = self.records.len();
        let mut i: usize = 0;
        proof {
            assert(self.records@.skip(0) =~= self.records@);
        }
        while i < n
            invariant
                i <= n,
                n == self.records.len(),
                balance_lookup(self.records@, account) == balance_lookup(
                    self.records@.skip(i as int),
                    account,
                ),
            decreases n - i,
        {
            let r = &self.records[i];
            if r.account == account {
                assert(self.records@.skip(i as int)[0] == self.records@[i as int]);
                return r.amount;
            }
            proof {
                assert(self.records@.skip(i as int).drop_first() =~= self.records@.skip(
                    i as int + 1,
                ));
            }
            i = i + 1;
        }
        proof {
            assert(self.records@.skip(n as int) =~= Seq::<BalanceRecord>::empty());
        }
        0
    }

    /// The balance of `account` free to move. This ledger holds no locks or
    /// reserves, so it coincides with the total balance.
    pub fn free_balance(&self, account: u64) -> (amount: u64)
        ensures
            amount == self.balance_of(account),
    {
        self.total_balance(account)
    }
}

impl BalanceLedger for InMemoryBalances {
    closed spec fn balance_of(&self, account: u64) -> u64 {
        balance_lookup(self.records@, account)
    }

    fn transfer(&mut self, from: u64, to: u64, amount: u64) -> (r: Result<(), BalanceError>)
        ensures
            r == Err::<(), BalanceError>(BalanceError::InsufficientBalance) <==> amount > old(
                self,
            ).balance_of(from),
            r == Err::<(), BalanceError>(BalanceError::Overflow) <==> (amount <= old(
                self,
            ).balance_of(from) && from != to && old(self).balance_of(to) + amount > u64::MAX),
    {
        let from_balance = self.total_balance(from);
        if from_balance < amount {
            return Err(BalanceError::InsufficientBalance);
        }
        if from == to {
            return Ok(());
        }
        let to_balance = self.total_balance(to);
        if amount > u64::MAX - to_balance {
            return Err(BalanceError::Overflow);
        }
        self.set_record(from, from_balance - amount);
        self.set_record(to, to_balance + amount);
        Ok(())
    }
}

} // verus!
