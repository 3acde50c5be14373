//! The allowance ledger: a double-keyed map from `(owner, spender)` to the
//! amount the spender may still move on the owner's behalf, together with the
//! four mutating operations (approve, increase, decrease, consume via
//! transfer) and the event log their single write path feeds.

use vstd::prelude::*;

use crate::balances::BalanceError;
use crate::balances::BalanceLedger;
use crate::balances::moved;

verus! {

/// A notification record published on every allowance write.
#[derive(Clone, Copy, Debug, PartialEq, Eq, Structural)]
pub enum Event {
    /// The allowance of `(owner, spender)` was set to the carried amount.
    AllowanceChanged(u64, u64, u64),
}

/// An operation rejected by the allowance ledger itself. A rejected operation
/// leaves the whole system observably unchanged.
#[derive(Clone, Copy, Debug, PartialEq, Eq, Structural)]
pub enum Error {
    /// `transfer_from` requested more than the current allowance.
    NotEnoughAllowance,
    /// `decrease_allowance` requested a delta exceeding the current allowance.
    DecreasedAllowanceBelowZero,
}

/// Everything `transfer_from` can report: its own precondition failure, or an
/// error propagated unchanged from the balance ledger.
#[derive(Clone, Copy, Debug, PartialEq, Eq, Structural)]
pub enum DispatchError {
    /// The allowance ledger rejected the operation before any effect.
    Allowance(Error),
    /// The balance ledger rejected the value movement; no allowance was
    /// written.
    Balance(BalanceError),
}

/// One stored allowance record: `owner` has authorized `spender` to move up
/// to `amount` of the owner's funds.
struct AllowanceRecord {
    owner: u64,
    spender: u64,
    amount: u64,
}

/// Whether a stored record carries the given key.
spec fn record_matches(r: AllowanceRecord, owner: u64, spender: u64) -> bool {
    r.owner == owner && r.spender == spender
}

/// The amount the record list associates with `(owner, spender)`: the first
/// matching record's amount, or zero when no record exists. Absence of a
/// record is equivalent to an explicit amount of zero.
spec fn lookup_amount(records: Seq<AllowanceRecord>, owner: u64, spender: u64) -> u64
    decreases records.len(),
{
    if records.len() == 0 {
        0u64
    } else if record_matches(records[0], owner, spender) {
        records[0].amount
    } else {
        lookup_amount(records.drop_first(), owner, spender)
    }
}

/// Overwriting the first record that carries a key changes the amount the
/// record list associates with that key and with no other, provided no
/// earlier record carries it.
proof fn lemma_lookup_update(records: Seq<AllowanceRecord>, i: int, r: AllowanceRecord)
    requires
        0 <= i < records.len(),
        forall|j: int| 0 <= j < i ==> !record_matches(records[j], r.owner, r.spender),
        record_matches(records[i], r.owner, r.spender),
    ensures
        lookup_amount(records.update(i, r), r.owner, r.spender) == r.amount,
        forall|o: u64, s: u64|
            !(o == r.owner && s == r.spender) ==> lookup_amount(records.update(i, r), o, s)
                == lookup_amount(records, o, s),
    decreases i,
{
    let t = records.update(i, r);
    if i == 0 {
        assert(t[0] == r);
        assert(t.drop_first() =~= records.drop_first());
        assert forall|o: u64, s: u64| !(o == r.owner && s == r.spender) implies lookup_amount(
            t,
            o,
            s,
        ) == lookup_amount(records, o, s) by {
            assert(!record_matches(t[0], o, s));
            assert(!record_matches(records[0], o, s));
        }
    } else {
        assert(t[0] == records[0]);
        assert(t.drop_first() =~= records.drop_first().update(i - 1, r));
        assert forall|j: int| 0 <= j < i - 1 implies !record_matches(
            records.drop_first()[j],
            r.owner,
            r.spender,
        ) by {
            assert(records.drop_first()[j] == records[j + 1]);
        }
        lemma_lookup_update(records.drop_first(), i - 1, r);
        assert(!record_matches(records[0], r.owner, r.spender));
        assert forall|o: u64, s: u64| !(o == r.owner && s == r.spender) implies lookup_amount(
            t,
            o,
            s,
        ) == lookup_amount(records, o, s) by {
            if !record_matches(records[0], o, s) {
                assert(lookup_amount(t, o, s) == lookup_amount(t.drop_first(), o, s));
                assert(lookup_amount(records, o, s) == lookup_amount(
                    records.drop_first(),
                    o,
                    s,
                ));
            }
        }
    }
}

/// Appending a record for a key no existing record carries changes the amount
/// the record list associates with that key and with no other.
proof fn lemma_lookup_push(records: Seq<AllowanceRecord>, r: AllowanceRecord)
    requires
        forall|j: int| 0 <= j < records.len() ==> !record_matches(records[j], r.owner, r.spender),
    ensures
        lookup_amount(records.push(r), r.owner, r.spender) == r.amount,
        forall|o: u64, s: u64|
            !(o == r.owner && s == r.spender) ==> lookup_amount(records.push(r), o, s)
                == lookup_amount(records, o, s),
    decreases records.len(),
{
    let t = records.push(r);
    if records.len() == 0 {
        assert(t[0] == r);
        assert(t.drop_first() =~= Seq::<AllowanceRecord>::empty());
        assert forall|o: u64, s: u64| !(o == r.owner && s == r.spender) implies lookup_amount(
            t,
            o,
            s,
        ) == lookup_amount(records, o, s) by {
            assert(!record_matches(t[0], o, s));
            assert(lookup_amount(t, o, s) == lookup_amount(t.drop_first(), o, s));
        }
    } else {
        assert(t[0] == records[0]);
        assert(t.drop_first() =~= records.drop_first().push(r));
        assert forall|j: int| 0 <= j < records.drop_first().len() implies !record_matches(
            records.drop_first()[j],
            r.owner,
            r.spender,
        ) by {
            assert(records.drop_first()[j] == records[j + 1]);
        }
        lemma_lookup_push(records.drop_first(), r);
        assert(!record_matches(records[0], r.owner, r.spender));
        assert forall|o: u64, s: u64| !(o == r.owner && s == r.spender) implies lookup_amount(
            t,
            o,
            s,
        ) == lookup_amount(records, o, s) by {
            if !record_matches(records[0], o, s) {
                assert(lookup_amount(t, o, s) == lookup_amount(t.drop_first(), o, s));
                assert(lookup_amount(records, o, s) == lookup_amount(
                    records.drop_first(),
                    o,
                    s,
                ));
            }
        }
    }
}

/// The allowance map in which every pair of accounts stands at zero.
pub open spec fn empty_allowances() -> Map<(u64, u64), u64> {
    Map::total(|k: (u64, u64)| 0u64)
}

/// The allowance ledger. It owns every allowance record (the sole source of
/// truth for spending authorization), the log of emitted notifications, and
/// the token metadata slots.
pub struct Pallet {
    records: Vec<AllowanceRecord>,
    events: Vec<Event>,
    name: Vec<u8>,
    symbol: Vec<u8>,
}

impl Pallet {
    /// The ledger as a total map: every `(owner, spender)` pair maps to its
    /// remaining allowance, zero for pairs never written.
    pub closed spec fn allowances(self) -> Map<(u64, u64), u64> {
        Map::total(|k: (u64, u64)| lookup_amount(self.records@, k.0, k.1))
    }

    /// The remaining allowance of a single pair.
    pub open spec fn allowance_of(self, owner: u64, spender: u64) -> u64 {
        self.allowances()[(owner, spender)]
    }

    /// Every notification emitted so far, oldest first.
    pub closed spec fn event_log(self) -> Seq<Event> {
        self.events@
    }

    /// The stored token name.
    pub closed spec fn token_name(self) -> Seq<u8> {
        self.name@
    }

    /// The stored token symbol.
    pub closed spec fn token_symbol(self) -> Seq<u8> {
        self.symbol@
    }

    /// The allowance view is a total map: every key is in its domain.
    pub proof fn lemma_allowances_total(self)
        ensures
            self.allowances().dom() == Set::<(u64, u64)>::full(),
    {
        assert(self.allowances().dom() =~= Set::<(u64, u64)>::full());
    }

    /// An empty ledger: every allowance is zero, nothing emitted, empty
    /// metadata.
    pub fn new() -> (p: Pallet)
        ensures
            p.allowances() == empty_allowances(),
            p.event_log() == Seq::<Event>::empty(),
            p.token_name() == Seq::<u8>::empty(),
            p.token_symbol() == Seq::<u8>::empty(),
    {
        let p = Pallet {
            records: Vec::new(),
            events: Vec::new(),
            name: Vec::new(),
            symbol: Vec::new(),
        };
        proof {
            assert(p.allowances() =~= empty_allowances());
        }
        p
    }

    /// Pure read of the current permitted amount; zero if no record exists.
    /// No side effects, never fails.
    pub fn get_allowance(&self, owner: u64, spender: u64) -> (amount: u64)
        ensures
            amount == self.allowance_of(owner, spender),
    {
        let n = self.records.len();
        let mut i: usize = 0;
        proof {
            assert(self.records@.skip(0) =~= self.records@);
        }
        while i < n
            invariant
                i <= n,
                n == self.records.len(),
                lookup_amount(self.records@, owner, spender) == lookup_amount(
                    self.records@.skip(i as int),
                    owner,
                    spender,
                ),
            decreases n - i,
        {
            let r = &self.records[i];
            if r.owner == owner && r.spender == spender {
                assert(self.records@.skip(i as int)[0] == self.records@[i as int]);
                return r.amount;
            }
            proof {
                assert(self.records@.skip(i as int).drop_first() =~= self.records@.skip(
                    i as int + 1,
                ));
            }
            i = i + 1;
        }
        proof {
            assert(self.records@.skip(n as int) =~= Seq::<AllowanceRecord>::empty());
        }
        0
    }

    /// Overwrite the record of `(owner, spender)` with `amount`, without a
    /// notification: the raw storage write shared by the single event-emitting
    /// write path and by trusted genesis loading.
    fn insert_record(&mut self, owner: u64, spender: u64, amount: u64)
        ensures
            final(self).allowances() == old(self).allowances().insert((owner, spender), amount),
            final(self).event_log() == old(self).event_log(),
            final(self).token_name() == old(self).token_name(),
            final(self).token_symbol() == old(self).token_symbol(),
    {
        let n = self.records.len();
        let mut i: usize = 0;
        while i < n
            invariant
                i <= n,
                *self == *old(self),
                n == self.records.len(),
                forall|j: int| 0 <= j < i ==> !record_matches(self.records@[j], owner, spender),
            decreases n - i,
        {
            if self.records[i].owner == owner && self.records[i].spender == spender {
                self.records[i] = AllowanceRecord { owner, spender, amount };
                proof {
                    lemma_lookup_update(
                        old(self).records@,
                        i as int,
                        AllowanceRecord { owner, spender, amount },
                    );
                    assert(self.records@ =~= old(self).records@.update(
                        i as int,
                        AllowanceRecord { owner, spender, amount },
                    ));
                    assert forall|k: (u64, u64)|
                        self.allowances()[k] == old(self).allowances().insert(
                            (owner, spender),
                            amount,
                        )[k] by {
                        if k.0 == owner && k.1 == spender {
                            assert(k == (owner, spender));
                        }
                    }
                    assert(self.allowances() =~= old(self).allowances().insert(
                        (owner, spender),
                        amount,
                    ));
                }
                return ;
            }
            i = i + 1;
        }
        self.records.push(AllowanceRecord { owner, spender, amount });
        proof {
            lemma_lookup_push(old(self).records@, AllowanceRecord { owner, spender, amount });
            assert forall|k: (u64, u64)|
                self.allowances()[k] == old(self).allowances().insert(
                    (owner, spender),
                    amount,
                )[k] by {
                if k.0 == owner && k.1 == spender {
                    assert(k == (owner, spender));
                }
            }
            assert(self.allowances() =~= old(self).allowances().insert((owner, spender), amount));
        }
    }

    /// The single write path of the ledger: unconditionally overwrite the
    /// record of `(owner, spender)` with `amount` and emit exactly one
    /// `AllowanceChanged` notification carrying the stored value.
    pub(crate) fn set_allowance(&mut self, owner: u64, spender: u64, amount: u64)
        ensures
            final(self).allowances() == old(self).allowances().insert((owner, spender), amount),
            final(self).event_log() == old(self).event_log().push(
                Event::AllowanceChanged(owner, spender, amount),
            ),
            final(self).token_name() == old(self).token_name(),
            final(self).token_symbol() == old(self).token_symbol(),
    {
        self.insert_record(owner, spender, amount);
        self.events.push(Event::AllowanceChanged(owner, spender, amount));
    }

    /// Set the allowance of `(owner, spender)` to `amount`, replacing any
    /// prior value: not additive, no precondition on the previous value,
    /// always succeeds. The caller is the owner, already authenticated by the
    /// host.
    pub fn approve(&mut self, owner: u64, spender: u64, amount: u64)
        ensures
            final(self).allowances() == old(self).allowances().insert((owner, spender), amount),
            final(self).allowance_of(owner, spender) == amount,
            final(self).event_log() == old(self).event_log().push(
                Event::AllowanceChanged(owner, spender, amount),
            ),
            final(self).token_name() == old(self).token_name(),
            final(self).token_symbol() == old(self).token_symbol(),
    {
        self.set_allowance(owner, spender, amount);
    }

    /// Raise the allowance of `(owner, spender)` by `delta`. The sum must not
    /// wrap: an overflow is a fatal precondition violation, so the amount
    /// domain must accommodate the new total. Always succeeds otherwise.
    pub fn increase_allowance(&mut self, owner: u64, spender: u64, delta: u64)
        requires
            old(self).allowance_of(owner, spender) + delta <= u64::MAX,
        ensures
            final(self).allowances() == old(self).allowances().insert(
                (owner, spender),
                (old(self).allowance_of(owner, spender) + delta) as u64,
            ),
            final(self).allowance_of(owner, spender) == old(self).allowance_of(owner, spender)
                + delta,
            final(self).event_log() == old(self).event_log().push(
                Event::AllowanceChanged(
                    owner,
                    spender,
                    (old(self).allowance_of(owner, spender) + delta) as u64,
                ),
            ),
            final(self).token_name() == old(self).token_name(),
            final(self).token_symbol() == old(self).token_symbol(),
    {
        let current = self.get_allowance(owner, spender);
        self.set_allowance(owner, spender, current + delta);
    }

    /// Lower the allowance of `(owner, spender)` by `delta`. Fails with
    /// `DecreasedAllowanceBelowZero`, leaving the ledger unmodified, exactly
    /// when `delta` exceeds the current allowance; otherwise the new amount is
    /// the old one minus `delta`.
    pub fn decrease_allowance(&mut self, owner: u64, spender: u64, delta: u64) -> (r: Result<
        (),
        Error,
    >)
        ensures
            r is Ok <==> delta <= old(self).allowance_of(owner, spender),
            r is Err ==> r == Err::<(), Error>(Error::DecreasedAllowanceBelowZero) && *final(self)
                == *old(self),
            r is Ok ==> final(self).allowances() == old(self).allowances().insert(
                (owner, spender),
                (old(self).allowance_of(owner, spender) - delta) as u64,
            ),
            r is Ok ==> final(self).event_log() == old(self).event_log().push(
                Event::AllowanceChanged(
                    owner,
                    spender,
                    (old(self).allowance_of(owner, spender) - delta) as u64,
                ),
            ),
            final(self).token_name() == old(self).token_name(),
            final(self).token_symbol() == old(self).token_symbol(),
    {
        let current = self.get_allowance(owner, spender);
        if current < delta {
            return Err(Error::DecreasedAllowanceBelowZero);
        }
        self.set_allowance(owner, spender, current - delta);
        Ok(())
    }

    /// Consume allowance via a delegated transfer: the caller (the spender)
    /// moves `amount` from `owner` to `recipient` through the balance ledger,
    /// and the allowance of `(owner, caller)` is decremented by exactly the
    /// amount moved. All or nothing: the balance movement is attempted first,
    /// and the allowance write happens only as a consequence of its success.
    ///
    /// Fails with `NotEnoughAllowance`, before any effect, exactly when
    /// `amount` exceeds the current allowance of `(owner, caller)`. An error
    /// from the balance ledger propagates unchanged, with every balance and
    /// every allowance left as it was.
    pub fn transfer_from<B: BalanceLedger>(
        &mut self,
        ledger: &mut B,
        caller: u64,
        owner: u64,
        recipient: u64,
        amount: u64,
    ) -> (r: Result<(), DispatchError>)
        ensures
            r is Ok || r == Err::<(), DispatchError>(
                DispatchError::Allowance(Error::NotEnoughAllowance),
            ) || (r matches Err(DispatchError::Balance(_))),
            r == Err::<(), DispatchError>(DispatchError::Allowance(Error::NotEnoughAllowance))
                <==> amount > old(self).allowance_of(owner, caller),
            !(r is Ok) ==> *final(self) == *old(self) && (forall|a: u64|
                final(ledger).balance_of(a) == old(ledger).balance_of(a)),
            r is Ok ==> final(self).allowances() == old(self).allowances().insert(
                (owner, caller),
                (old(self).allowance_of(owner, caller) - amount) as u64,
            ),
            r is Ok ==> final(self).event_log() == old(self).event_log().push(
                Event::AllowanceChanged(
                    owner,
                    caller,
                    (old(self).allowance_of(owner, caller) - amount) as u64,
                ),
            ),
            r is Ok ==> moved(*old(ledger), *final(ledger), owner, recipient, amount),
            final(self).token_name() == old(self).token_name(),
            final(self).token_symbol() == old(self).token_symbol(),
    {
        let current = self.get_allowance(owner, caller);
        if current < amount {
            return Err(DispatchError::Allowance(Error::NotEnoughAllowance));
        }
        match ledger.transfer(owner, recipient, amount) {
            Err(e) => Err(DispatchError::Balance(e)),
            Ok(()) => {
                self.set_allowance(owner, caller, current - amount);
                Ok(())
            },
        }
    }

    /// Every notification emitted so far, oldest first.
    pub fn events(&self) -> (r: &Vec<Event>)
        ensures
            r@ == self.event_log(),
    {
        &self.events
    }

    /// The stored token name.
    pub fn get_name(&self) -> (r: &Vec<u8>)
        ensures
            r@ == self.token_name(),
    {
        &self.name
    }

    /// The stored token symbol.
    pub fn get_symbol(&self) -> (r: &Vec<u8>)
        ensures
            r@ == self.token_symbol(),
    {
        &self.symbol
    }
}

/// The allowance map that a sequence of trusted genesis triples denotes:
/// starting from all zeroes, each `(owner, spender, amount)` is written in
/// order, a later triple for the same pair replacing an earlier one.
pub open spec fn genesis_allowances(triples: Seq<(u64, u64, u64)>) -> Map<(u64, u64), u64>
    decreases triples.len(),
{
    if triples.len() == 0 {
        empty_allowances()
    } else {
        genesis_allowances(triples.drop_last()).insert(
            (triples.last().0, triples.last().1),
            triples.last().2,
        )
    }
}

/// Trusted initialization data: an ordered sequence of
/// `(owner, spender, amount)` triples inserted as initial allowance records,
/// bypassing the normal mutators — no notifications, no precondition checks.
pub struct GenesisConfig {
    /// The initial allowance records, applied in order.
    pub allowances: Vec<(u64, u64, u64)>,
}

impl Default for GenesisConfig {
    /// An empty configuration: no initial allowance records.
    fn default() -> (c: GenesisConfig)
        ensures
            c.allowances@ == Seq::<(u64, u64, u64)>::empty(),
    {
        GenesisConfig { allowances: Vec::new() }
    }
}

impl GenesisConfig {
    /// Build the initial ledger state: every triple is inserted in order into
    /// an otherwise empty ledger, and no notification is emitted for any of
    /// them.
    pub fn build(&self) -> (p: Pallet)
        ensures
            p.allowances() == genesis_allowances(self.allowances@),
            p.event_log() == Seq::<Event>::empty(),
            p.token_name() == Seq::<u8>::empty(),
            p.token_symbol() == Seq::<u8>::empty(),
    {
        let mut p = Pallet::new();
        let n = self.allowances.len();
        let mut i: usize = 0;
        proof {
            assert(self.allowances@.take(0) =~= Seq::<(u64, u64, u64)>::empty());
        }
        while i < n
            invariant
                i <= n,
                n == self.allowances.len(),
                p.allowances() == genesis_allowances(self.allowances@.take(i as int)),
                p.event_log() == Seq::<Event>::empty(),
                p.token_name() == Seq::<u8>::empty(),
                p.token_symbol() == Seq::<u8>::empty(),
            decreases n - i,
        {
            let (owner, spender, amount) = self.allowances[i];
            p.insert_record(owner, spender, amount);
            proof {
                assert(self.allowances@.take(i as int + 1).drop_last() =~= self.allowances@.take(
                    i as int,
                ));
                assert(self.allowances@.take(i as int + 1).last() == self.allowances@[i as int]);
            }
            i = i + 1;
        }
        proof {
            assert(self.allowances@.take(n as int) =~= self.allowances@);
        }
        p
    }
}

} // verus!
