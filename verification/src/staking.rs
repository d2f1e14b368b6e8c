//! The domain staking ledger: operator pools, nominator deposits, domain
//! reassignment, deregistration and withdrawal intents.
//!
//! Every call is transactional: it either applies all of its writes, or
//! returns a typed [`Error`] and leaves the ledger and the currency untouched.
//! The ledger never retries and never swallows arithmetic faults.

use vstd::prelude::*;

use crate::balances::{freeze_applied, Balances};
use crate::id_map::{IdMap, IdPairMap};

verus! {

/// One operator's staking pool.
#[derive(Clone, Copy, Debug)]
pub struct OperatorPool {
    pub signing_key: [u8; 32],
    pub current_domain_id: u64,
    pub next_domain_id: u64,
    pub minimum_nominator_stake: u128,
    /// Percentage in `[0, 100]`.
    pub nomination_tax: u8,
    /// Total active stake for the current pool.
    pub current_total_stake: u128,
    /// Total rewards this operator received this epoch.
    pub current_epoch_rewards: u128,
    /// Total shares of the nominators and the operator in this pool.
    pub total_shares: u128,
    pub is_frozen: bool,
}

/// A nominator's stake in one operator pool, in share units.
#[derive(Clone, Copy, Debug, PartialEq, Eq, Structural)]
pub struct Nominator {
    pub shares: u128,
}

/// A withdrawal intent: everything, or a fixed amount.
#[derive(Clone, Copy, Debug, PartialEq, Eq, Structural)]
pub enum Withdraw {
    All,
    Partial(u128),
}

/// Per-domain staking summary for the current epoch.
#[derive(Debug)]
pub struct StakingSummary {
    /// Current epoch index for the domain.
    pub current_epoch_index: u64,
    /// Total active stake for the current epoch.
    pub current_total_stake: u128,
    /// Operators of the current epoch.
    pub current_operators: Vec<u64>,
    /// Operators of the next epoch.
    pub next_operators: Vec<u64>,
}

/// Mathematical shape of a [`StakingSummary`].
pub struct SummaryView {
    pub current_epoch_index: u64,
    pub current_total_stake: u128,
    pub current_operators: Seq<u64>,
    pub next_operators: Seq<u64>,
}

impl View for StakingSummary {
    type V = SummaryView;

    open spec fn view(&self) -> SummaryView {
        SummaryView {
            current_epoch_index: self.current_epoch_index,
            current_total_stake: self.current_total_stake,
            current_operators: self.current_operators@,
            next_operators: self.next_operators@,
        }
    }
}

/// What a new operator registers with.
#[derive(Clone, Copy, Debug)]
pub struct OperatorConfig {
    pub signing_key: [u8; 32],
    pub minimum_nominator_stake: u128,
    /// Percentage in `[0, 100]`.
    pub nomination_tax: u8,
}

fn bytes32_equal(a: &[u8; 32], b: &[u8; 32]) -> (r: bool)
    ensures
        r == (*a == *b),
{
    let mut i: usize = 0;
    while i < 32
        invariant
            i <= 32,
            forall|j: int| 0 <= j < i ==> a[j] == b[j],
        decreases 32 - i,
    {
        if a[i] != b[i] {
            proof {
                assert(a[i as int] != b[i as int]);
            }
            return false;
        }
        i = i + 1;
    }
    proof {
        assert(*a =~= *b);
    }
    true
}

impl core::cmp::PartialEq for OperatorPool {
    fn eq(&self, other: &Self) -> (r: bool) {
        bytes32_equal(&self.signing_key, &other.signing_key)
            && self.current_domain_id == other.current_domain_id && self.next_domain_id
            == other.next_domain_id && self.minimum_nominator_stake
            == other.minimum_nominator_stake && self.nomination_tax == other.nomination_tax
            && self.current_total_stake == other.current_total_stake && self.current_epoch_rewards
            == other.current_epoch_rewards && self.total_shares == other.total_shares
            && self.is_frozen == other.is_frozen
    }
}

impl core::cmp::Eq for OperatorPool {

}

impl vstd::std_specs::cmp::PartialEqSpecImpl for OperatorPool {
    open spec fn obeys_eq_spec() -> bool {
        true
    }

    open spec fn eq_spec(&self, other: &Self) -> bool {
        *self == *other
    }
}

/// Typed failures of the staking calls.
#[derive(Clone, Copy, Debug, PartialEq, Eq, Structural)]
pub enum Error {
    MaximumOperatorId,
    DomainNotInitialized,
    InsufficientBalance,
    BalanceFreeze,
    MinimumOperatorStake,
    UnknownOperator,
    MinimumNominatorStake,
    BalanceOverflow,
    BalanceUnderflow,
    NotOperatorOwner,
    OperatorPoolFrozen,
    UnknownNominator,
    ExistingFullWithdraw,
}

/// Billionths of the ratio `p / q`, rounded down; the host's `Perbill`
/// saturates at one when the denominator is zero or exceeded.
pub open spec fn perbill_parts(p: int, q: int) -> int {
    if 0 < q && p <= q {
        p * 1_000_000_000 / q
    } else {
        1_000_000_000
    }
}

/// `x` scaled by `parts` billionths, rounded half-down to the nearest integer.
pub open spec fn perbill_mul(parts: int, x: int) -> int {
    x * parts / 1_000_000_000 + if (x * parts) % 1_000_000_000 > 500_000_000 {
        1int
    } else {
        0int
    }
}

/// The stake a nominator's shares stand for in a pool worth `total_pool`,
/// under the host's proportional scaling.
pub open spec fn nominator_stake_of(shares: u128, total_shares: u128, total_pool: u128) -> int {
    perbill_mul(perbill_parts(shares as int, total_shares as int), total_pool as int)
}

/// Relies on `sp_arithmetic::Perbill`: `from_rational` rounds the ratio down
/// to a whole number of billionths and saturates at one when the denominator
/// is zero or smaller than the numerator, and multiplying a `u128` by the
/// ratio rounds half-down to the nearest integer.
#[verifier::external_body]
fn perbill_scale(shares: u128, total_shares: u128, amount: u128) -> (r: u128)
    ensures
        r as int == nominator_stake_of(shares, total_shares, amount),
{
    sp_arithmetic::Perbill::from_rational(shares, total_shares) * amount
}

/// How an incoming withdrawal intent combines with the stored one, before any
/// stake-floor rule applies. A stored full withdrawal is absorbing: nothing
/// may follow it; partials sum; a full intent overrides a stored partial.
pub open spec fn combine_withdraw(existing: Option<Withdraw>, incoming: Withdraw) -> Result<
    Withdraw,
    Error,
> {
    match existing {
        Option::None => Ok(incoming),
        Option::Some(Withdraw::All) => Err(Error::ExistingFullWithdraw),
        Option::Some(Withdraw::Partial(a)) => match incoming {
            Withdraw::All => Ok(Withdraw::All),
            Withdraw::Partial(b) => if a + b <= u128::MAX {
                Ok(Withdraw::Partial((a + b) as u128))
            } else {
                Err(Error::BalanceOverflow)
            },
        },
    }
}

/// Combining withdrawal intents behaves as stated: two partials sum (or
/// report overflow), any intent after a stored `All` fails with
/// `ExistingFullWithdraw`, and `All` after a partial promotes to `All`.
pub proof fn lemma_combine_withdraw(a: u128, b: u128)
    ensures
        combine_withdraw(Option::Some(Withdraw::Partial(a)), Withdraw::Partial(b)) == (if a + b
            <= u128::MAX {
            Ok::<Withdraw, Error>(Withdraw::Partial((a + b) as u128))
        } else {
            Err::<Withdraw, Error>(Error::BalanceOverflow)
        }),
        combine_withdraw(Option::Some(Withdraw::All), Withdraw::Partial(b)) == Err::<
            Withdraw,
            Error,
        >(Error::ExistingFullWithdraw),
        combine_withdraw(Option::Some(Withdraw::All), Withdraw::All) == Err::<Withdraw, Error>(
            Error::ExistingFullWithdraw,
        ),
        combine_withdraw(Option::Some(Withdraw::Partial(a)), Withdraw::All) == Ok::<
            Withdraw,
            Error,
        >(Withdraw::All),
        combine_withdraw(Option::None, Withdraw::Partial(b)) == Ok::<Withdraw, Error>(
            Withdraw::Partial(b),
        ),
        combine_withdraw(Option::None, Withdraw::All) == Ok::<Withdraw, Error>(Withdraw::All),
{
}

/// In which order one freeze acquisition reports its failures: missing usable
/// balance, then overflow of the raised lock, then the host refusing the
/// freeze itself.
pub open spec fn spec_freeze_error(b: Balances, who: u64, operator_id: u64, amount: u128) -> Option<
    Error,
> {
    if b.usable_of(who) < amount {
        Option::Some(Error::InsufficientBalance)
    } else if b.freeze_of(operator_id, who) + amount > u128::MAX {
        Option::Some(Error::BalanceOverflow)
    } else if !(b.has_freeze(operator_id, who) || b.freeze_slot_count(who) < b.freeze_limit()) {
        Option::Some(Error::BalanceFreeze)
    } else {
        Option::None
    }
}

/// Acquires `amount` of additional frozen balance on `who` under the freeze
/// identity of `operator_id`: the existing lock under that identity is raised
/// by `amount`.
fn freeze_account_balance_to_operator(
    balances: &mut Balances,
    who: u64,
    operator_id: u64,
    amount: u128,
) -> (r: Result<(), Error>)
    ensures
        match r {
            Ok(()) => spec_freeze_error(*old(balances), who, operator_id, amount) is None
                && freeze_applied(
                *old(balances),
                *final(balances),
                operator_id,
                who,
                (old(balances).freeze_of(operator_id, who) + amount) as u128,
            ),
            Err(e) => Option::Some(e) == spec_freeze_error(
                *old(balances),
                who,
                operator_id,
                amount,
            ) && *final(balances) == *old(balances),
        },
{
    if balances.reducible_balance(who) < amount {
        return Err(Error::InsufficientBalance);
    }
    let current_locked_balance = balances.balance_frozen(operator_id, who);
    let balance_to_be_locked = match current_locked_balance.checked_add(amount) {
        Option::Some(v) => v,
        Option::None => {
            return Err(Error::BalanceOverflow);
        },
    };
    match balances.set_freeze(operator_id, who, balance_to_be_locked) {
        Ok(()) => Ok(()),
        Err(()) => Err(Error::BalanceFreeze),
    }
}

/// The staking ledger's state, together with the host constant it is
/// configured with.
pub struct StakingLedger {
    next_operator_id: u64,
    operator_id_owner: IdMap<u64>,
    operator_pools: IdMap<OperatorPool>,
    nominators: IdPairMap<Nominator>,
    pending_deposits: IdPairMap<u128>,
    pending_withdrawals: IdPairMap<Withdraw>,
    domain_staking_summary: IdMap<StakingSummary>,
    pending_operator_switches: IdMap<Vec<u64>>,
    pending_operator_deregistrations: Vec<u64>,
    min_operator_stake: u128,
}

impl StakingLedger {
    /// The operator identifier the next registration will take.
    pub closed spec fn next_id(&self) -> u64 {
        self.next_operator_id
    }

    pub closed spec fn owners(&self) -> Map<u64, u64> {
        self.operator_id_owner@
    }

    pub closed spec fn pools(&self) -> Map<u64, OperatorPool> {
        self.operator_pools@
    }

    pub closed spec fn nominator_shares(&self) -> Map<(u64, u64), Nominator> {
        self.nominators@
    }

    pub closed spec fn deposits(&self) -> Map<(u64, u64), u128> {
        self.pending_deposits@
    }

    pub closed spec fn withdrawals(&self) -> Map<(u64, u64), Withdraw> {
        self.pending_withdrawals@
    }

    pub closed spec fn summaries(&self) -> Map<u64, SummaryView> {
        Map::new(
            |d: u64| self.domain_staking_summary@.contains_key(d),
            |d: u64| self.domain_staking_summary@[d]@,
        )
    }

    pub closed spec fn switches(&self) -> Map<u64, Seq<u64>> {
        Map::new(
            |d: u64| self.pending_operator_switches@.contains_key(d),
            |d: u64| self.pending_operator_switches@[d]@,
        )
    }

    pub closed spec fn dereg_queue(&self) -> Seq<u64> {
        self.pending_operator_deregistrations@
    }

    /// The host constant `MinOperatorStake`.
    pub closed spec fn min_stake(&self) -> u128 {
        self.min_operator_stake
    }

    /// The identifier space is dense and never reused: the identifiers below
    /// the allocation counter are exactly the keys of the owner and pool maps,
    /// so every pool has an owner, every owner a pool, and a deregistered pool
    /// stays, frozen, rather than vanish and free its identifier.
    pub open spec fn ids_allocated(&self) -> bool {
        &&& forall|id: u64|
            id < self.next_id() ==> self.owners().contains_key(id) && self.pools().contains_key(id)
        &&& forall|id: u64|
            self.owners().contains_key(id) || self.pools().contains_key(id) ==> id < self.next_id()
    }

    pub fn new(min_operator_stake: u128) -> (r: Self)
        ensures
            r.next_id() == 0,
            r.owners() == Map::<u64, u64>::empty(),
            r.pools() == Map::<u64, OperatorPool>::empty(),
            r.nominator_shares() == Map::<(u64, u64), Nominator>::empty(),
            r.deposits() == Map::<(u64, u64), u128>::empty(),
            r.withdrawals() == Map::<(u64, u64), Withdraw>::empty(),
            r.summaries() == Map::<u64, SummaryView>::empty(),
            r.switches() == Map::<u64, Seq<u64>>::empty(),
            r.dereg_queue() == Seq::<u64>::empty(),
            r.min_stake() == min_operator_stake,
    {
        let r = StakingLedger {
            next_operator_id: 0,
            operator_id_owner: IdMap::new(),
            operator_pools: IdMap::new(),
            nominators: IdPairMap::new(),
            pending_deposits: IdPairMap::new(),
            pending_withdrawals: IdPairMap::new(),
            domain_staking_summary: IdMap::new(),
            pending_operator_switches: IdMap::new(),
            pending_operator_deregistrations: Vec::new(),
            min_operator_stake,
        };
        proof {
            assert(r.summaries() =~= Map::<u64, SummaryView>::empty());
            assert(r.switches() =~= Map::<u64, Seq<u64>>::empty());
        }
        r
    }

    /// In which order registration reports its failures.
    pub open spec fn spec_register_error(
        &self,
        balances: Balances,
        operator_owner: u64,
        domain_id: u64,
        amount: u128,
    ) -> Option<Error> {
        if self.next_id() == u64::MAX {
            Option::Some(Error::MaximumOperatorId)
        } else if amount < self.min_stake() {
            Option::Some(Error::MinimumOperatorStake)
        } else {
            match spec_freeze_error(balances, operator_owner, self.next_id(), amount) {
                Option::Some(e) => Option::Some(e),
                Option::None => if !self.summaries().contains_key(domain_id) {
                    Option::Some(Error::DomainNotInitialized)
                } else {
                    Option::None
                },
            }
        }
    }

    /// Registers a new operator pool for `domain_id`: allocates the next
    /// operator identifier, freezes `amount` of the owner's balance under
    /// that identifier, records the pool for the domain's next epoch, and
    /// books the owner's deposit as pending.
    pub fn register_operator(
        &mut self,
        balances: &mut Balances,
        operator_owner: u64,
        domain_id: u64,
        amount: u128,
        config: OperatorConfig,
    ) -> (r: Result<u64, Error>)
        requires
            config.nomination_tax <= 100,
        ensures
            final(self).min_stake() == old(self).min_stake(),
            final(self).next_id() >= old(self).next_id(),
            old(self).ids_allocated() ==> final(self).ids_allocated(),
            match r {
                Ok(operator_id) => {
                    &&& old(self).spec_register_error(
                        *old(balances),
                        operator_owner,
                        domain_id,
                        amount,
                    ) is None
                    &&& operator_id == old(self).next_id()
                    &&& final(self).next_id() == old(self).next_id() + 1
                    &&& final(self).owners() == old(self).owners().insert(
                        operator_id,
                        operator_owner,
                    )
                    &&& final(self).pools() == old(self).pools().insert(
                        operator_id,
                        (OperatorPool {
                            signing_key: config.signing_key,
                            current_domain_id: domain_id,
                            next_domain_id: domain_id,
                            minimum_nominator_stake: config.minimum_nominator_stake,
                            nomination_tax: config.nomination_tax,
                            current_total_stake: 0,
                            current_epoch_rewards: 0,
                            total_shares: 0,
                            is_frozen: false,
                        }),
                    )
                    &&& final(self).deposits() == old(self).deposits().insert(
                        (operator_id, operator_owner),
                        amount,
                    )
                    &&& final(self).summaries() == old(self).summaries().insert(
                        domain_id,
                        (SummaryView {
                            current_epoch_index: old(self).summaries()[domain_id].current_epoch_index,
                            current_total_stake: old(self).summaries()[domain_id].current_total_stake,
                            current_operators: old(self).summaries()[domain_id].current_operators,
                            next_operators: old(self).summaries()[domain_id].next_operators.push(
                                operator_id,
                            ),
                        }),
                    )
                    &&& final(self).nominator_shares() == old(self).nominator_shares()
                    &&& final(self).withdrawals() == old(self).withdrawals()
                    &&& final(self).switches() == old(self).switches()
                    &&& final(self).dereg_queue() == old(self).dereg_queue()
                    &&& freeze_applied(
                        *old(balances),
                        *final(balances),
                        operator_id,
                        operator_owner,
                        (old(balances).freeze_of(operator_id, operator_owner) + amount) as u128,
                    )
                },
                Err(e) => {
                    &&& Option::Some(e) == old(self).spec_register_error(
                        *old(balances),
                        operator_owner,
                        domain_id,
                        amount,
                    )
                    &&& *final(self) == *old(self)
                    &&& *final(balances) == *old(balances)
                },
            },
    {
        let operator_id = self.next_operator_id;
        if operator_id == u64::MAX {
            return Err(Error::MaximumOperatorId);
        }
        if amount < self.min_operator_stake {
            return Err(Error::MinimumOperatorStake);
        }
        if balances.reducible_balance(operator_owner) < amount {
            return Err(Error::InsufficientBalance);
        }
        let current_locked_balance = balances.balance_frozen(operator_id, operator_owner);
        if current_locked_balance.checked_add(amount).is_none() {
            return Err(Error::BalanceOverflow);
        }
        if !balances.can_set_freeze(operator_id, operator_owner) {
            return Err(Error::BalanceFreeze);
        }
        if !self.domain_staking_summary.contains_key(domain_id) {
            return Err(Error::DomainNotInitialized);
        }
        // the freeze cannot fail any more: every one of its error conditions
        // was ruled out above, and nothing touched the balances since
        match freeze_account_balance_to_operator(balances, operator_owner, operator_id, amount) {
            Ok(()) => (),
            Err(e) => {
                proof {
                    assert(false);
                }
                return Err(e);
            },
        }
        self.next_operator_id = operator_id + 1;
        self.operator_id_owner.insert(operator_id, operator_owner);
        self.operator_pools.insert(
            operator_id,
            OperatorPool {
                signing_key: config.signing_key,
                current_domain_id: domain_id,
                next_domain_id: domain_id,
                minimum_nominator_stake: config.minimum_nominator_stake,
                nomination_tax: config.nomination_tax,
                current_total_stake: 0,
                current_epoch_rewards: 0,
                total_shares: 0,
                is_frozen: false,
            },
        );
        // present: the domain was checked before any write
        let mut summary = match self.domain_staking_summary.remove(domain_id) {
            Option::Some(s) => s,
            Option::None => {
                proof {
                    assert(false);
                }
                return Err(Error::DomainNotInitialized);
            },
        };
        summary.next_operators.push(operator_id);
        self.domain_staking_summary.insert(domain_id, summary);
        self.pending_deposits.insert(operator_id, operator_owner, amount);
        proof {
            assert(self.summaries() =~= old(self).summaries().insert(
                domain_id,
                SummaryView {
                    current_epoch_index: old(self).summaries()[domain_id].current_epoch_index,
                    current_total_stake: old(self).summaries()[domain_id].current_total_stake,
                    current_operators: old(self).summaries()[domain_id].current_operators,
                    next_operators: old(self).summaries()[domain_id].next_operators.push(
                        operator_id,
                    ),
                },
            ));
            assert(self.switches() =~= old(self).switches());
            assert forall|id: u64| old(self).ids_allocated() && id < self.next_id() implies
                self.owners().contains_key(id) && self.pools().contains_key(id) by {
                if id < old(self).next_id() {
                    assert(old(self).owners().contains_key(id));
                    assert(old(self).pools().contains_key(id));
                }
            }
            assert forall|id: u64|
                old(self).ids_allocated() && (self.owners().contains_key(id)
                    || self.pools().contains_key(id)) implies id < self.next_id() by {
                if id != operator_id {
                    assert(old(self).owners().contains_key(id) || old(self).pools().contains_key(
                        id,
                    ));
                }
            }
        }
        Ok(operator_id)
    }

    /// In which order a nomination reports its failures.
    pub open spec fn spec_nominate_error(
        &self,
        balances: Balances,
        operator_id: u64,
        nominator_id: u64,
        amount: u128,
    ) -> Option<Error> {
        if !self.pools().contains_key(operator_id) {
            Option::Some(Error::UnknownOperator)
        } else if self.pools()[operator_id].is_frozen {
            Option::Some(Error::OperatorPoolFrozen)
        } else {
            let existing = if self.deposits().contains_key((operator_id, nominator_id)) {
                self.deposits()[(operator_id, nominator_id)] as int
            } else {
                0
            };
            if existing + amount > u128::MAX {
                Option::Some(Error::BalanceOverflow)
            } else if existing + amount < self.pools()[operator_id].minimum_nominator_stake {
                Option::Some(Error::MinimumNominatorStake)
            } else {
                spec_freeze_error(balances, nominator_id, operator_id, amount)
            }
        }
    }

    /// The pending deposit the nominator holds on the pool, nothing yet.
    pub open spec fn spec_pending_deposit(&self, operator_id: u64, nominator_id: u64) -> int {
        if self.deposits().contains_key((operator_id, nominator_id)) {
            self.deposits()[(operator_id, nominator_id)] as int
        } else {
            0
        }
    }

    /// Adds `amount` to the nominator's pending deposit on an unfrozen pool,
    /// freezing `amount` more of the nominator's balance; the whole updated
    /// deposit must reach the pool's minimum nominator stake.
    pub fn nominate_operator(
        &mut self,
        balances: &mut Balances,
        operator_id: u64,
        nominator_id: u64,
        amount: u128,
    ) -> (r: Result<(), Error>)
        ensures
            final(self).min_stake() == old(self).min_stake(),
            final(self).next_id() == old(self).next_id(),
            old(self).ids_allocated() ==> final(self).ids_allocated(),
            old(self).pools().contains_key(operator_id) && old(self).pools()[operator_id].is_frozen
                ==> r == Err::<(), Error>(Error::OperatorPoolFrozen) && *final(self) == *old(self)
                && *final(balances) == *old(balances),
            match r {
                Ok(()) => {
                    &&& old(self).spec_nominate_error(
                        *old(balances),
                        operator_id,
                        nominator_id,
                        amount,
                    ) is None
                    &&& final(self).deposits() == old(self).deposits().insert(
                        (operator_id, nominator_id),
                        (old(self).spec_pending_deposit(operator_id, nominator_id)
                            + amount) as u128,
                    )
                    &&& final(self).owners() == old(self).owners()
                    &&& final(self).pools() == old(self).pools()
                    &&& final(self).nominator_shares() == old(self).nominator_shares()
                    &&& final(self).withdrawals() == old(self).withdrawals()
                    &&& final(self).summaries() == old(self).summaries()
                    &&& final(self).switches() == old(self).switches()
                    &&& final(self).dereg_queue() == old(self).dereg_queue()
                    &&& freeze_applied(
                        *old(balances),
                        *final(balances),
                        operator_id,
                        nominator_id,
                        (old(balances).freeze_of(operator_id, nominator_id) + amount) as u128,
                    )
                },
                Err(e) => {
                    &&& Option::Some(e) == old(self).spec_nominate_error(
                        *old(balances),
                        operator_id,
                        nominator_id,
                        amount,
                    )
                    &&& *final(self) == *old(self)
                    &&& *final(balances) == *old(balances)
                },
            },
    {
        let pool = match self.operator_pools.get(operator_id) {
            Option::Some(p) => *p,
            Option::None => {
                return Err(Error::UnknownOperator);
            },
        };
        if pool.is_frozen {
            return Err(Error::OperatorPoolFrozen);
        }
        let existing_deposit = match self.pending_deposits.get(operator_id, nominator_id) {
            Option::Some(d) => *d,
            Option::None => 0,
        };
        let updated_total_deposit = match existing_deposit.checked_add(amount) {
            Option::Some(v) => v,
            Option::None => {
                return Err(Error::BalanceOverflow);
            },
        };
        if updated_total_deposit < pool.minimum_nominator_stake {
            return Err(Error::MinimumNominatorStake);
        }
        match freeze_account_balance_to_operator(balances, nominator_id, operator_id, amount) {
            Ok(()) => (),
            Err(e) => {
                return Err(e);
            },
        }
        self.pending_deposits.insert(operator_id, nominator_id, updated_total_deposit);
        proof {
            assert forall|id: u64| old(self).ids_allocated() && id < self.next_id() implies
                self.owners().contains_key(id) && self.pools().contains_key(id) by {
                assert(old(self).owners().contains_key(id));
                assert(old(self).pools().contains_key(id));
            }
            assert forall|id: u64|
                old(self).ids_allocated() && (self.owners().contains_key(id)
                    || self.pools().contains_key(id)) implies id < self.next_id() by {
                assert(old(self).owners().contains_key(id) || old(self).pools().contains_key(id));
            }
        }
        Ok(())
    }

    /// In which order a domain switch reports its failures.
    pub open spec fn spec_switch_error(
        &self,
        operator_owner: u64,
        operator_id: u64,
        new_domain_id: u64,
    ) -> Option<Error> {
        if !(self.owners().contains_key(operator_id) && self.owners()[operator_id]
            == operator_owner) {
            Option::Some(Error::NotOperatorOwner)
        } else if !self.summaries().contains_key(new_domain_id) {
            Option::Some(Error::DomainNotInitialized)
        } else if !self.pools().contains_key(operator_id) {
            Option::Some(Error::UnknownOperator)
        } else if self.pools()[operator_id].is_frozen {
            Option::Some(Error::OperatorPoolFrozen)
        } else if !self.summaries().contains_key(self.pools()[operator_id].current_domain_id) {
            Option::Some(Error::DomainNotInitialized)
        } else {
            Option::None
        }
    }

    /// The pending switch queue of a domain, empty when absent.
    pub open spec fn spec_switch_queue(&self, domain_id: u64) -> Seq<u64> {
        if self.switches().contains_key(domain_id) {
            self.switches()[domain_id]
        } else {
            Seq::empty()
        }
    }

    /// Marks the owner's pool for reassignment to `new_domain_id` at the
    /// current domain's next epoch boundary: records the target domain on the
    /// pool, removes the pool from the current domain's next-epoch operators,
    /// and queues the pending switch. Returns the current domain.
    pub fn switch_operator_domain(
        &mut self,
        operator_owner: u64,
        operator_id: u64,
        new_domain_id: u64,
    ) -> (r: Result<u64, Error>)
        ensures
            final(self).min_stake() == old(self).min_stake(),
            final(self).next_id() == old(self).next_id(),
            old(self).ids_allocated() ==> final(self).ids_allocated(),
            old(self).owners().contains_key(operator_id) && old(self).owners()[operator_id]
                == operator_owner && old(self).pools().contains_key(operator_id) && old(
                self,
            ).pools()[operator_id].is_frozen && old(self).summaries().contains_key(new_domain_id)
                ==> r == Err::<u64, Error>(Error::OperatorPoolFrozen) && *final(self) == *old(self),
            match r {
                Ok(old_domain_id) => {
                    &&& old(self).spec_switch_error(operator_owner, operator_id, new_domain_id)
                        is None
                    &&& old_domain_id == old(self).pools()[operator_id].current_domain_id
                    &&& final(self).pools() == old(self).pools().insert(
                        operator_id,
                        (OperatorPool { next_domain_id: new_domain_id, ..old(
                            self,
                        ).pools()[operator_id] }),
                    )
                    &&& final(self).summaries() == old(self).summaries().insert(
                        old_domain_id,
                        (SummaryView {
                            next_operators: seq_remove_all(
                                old(self).summaries()[old_domain_id].next_operators,
                                operator_id,
                            ),
                            ..old(self).summaries()[old_domain_id]
                        }),
                    )
                    &&& final(self).switches() == old(self).switches().insert(
                        old_domain_id,
                        old(self).spec_switch_queue(old_domain_id).push(operator_id),
                    )
                    &&& final(self).owners() == old(self).owners()
                    &&& final(self).nominator_shares() == old(self).nominator_shares()
                    &&& final(self).deposits() == old(self).deposits()
                    &&& final(self).withdrawals() == old(self).withdrawals()
                    &&& final(self).dereg_queue() == old(self).dereg_queue()
                },
                Err(e) => {
                    &&& Option::Some(e) == old(self).spec_switch_error(
                        operator_owner,
                        operator_id,
                        new_domain_id,
                    )
                    &&& *final(self) == *old(self)
                },
            },
    {
        match self.operator_id_owner.get(operator_id) {
            Option::Some(o) => {
                if *o != operator_owner {
                    return Err(Error::NotOperatorOwner);
                }
            },
            Option::None => {
                return Err(Error::NotOperatorOwner);
            },
        }
        if !self.domain_staking_summary.contains_key(new_domain_id) {
            return Err(Error::DomainNotInitialized);
        }
        let mut pool = match self.operator_pools.get(operator_id) {
            Option::Some(p) => *p,
            Option::None => {
                return Err(Error::UnknownOperator);
            },
        };
        if pool.is_frozen {
            return Err(Error::OperatorPoolFrozen);
        }
        let old_domain_id = pool.current_domain_id;
        if !self.domain_staking_summary.contains_key(old_domain_id) {
            return Err(Error::DomainNotInitialized);
        }
        pool.next_domain_id = new_domain_id;
        self.operator_pools.insert(operator_id, pool);
        // present: the current domain was checked before any write
        let mut summary = match self.domain_staking_summary.remove(old_domain_id) {
            Option::Some(s) => s,
            Option::None => {
                proof {
                    assert(false);
                }
                return Err(Error::DomainNotInitialized);
            },
        };
        let kept = remove_all(&summary.next_operators, operator_id);
        summary.next_operators = kept;
        self.domain_staking_summary.insert(old_domain_id, summary);
        let mut queue = match self.pending_operator_switches.remove(old_domain_id) {
            Option::Some(q) => q,
            Option::None => Vec::new(),
        };
        queue.push(operator_id);
        self.pending_operator_switches.insert(old_domain_id, queue);
        proof {
            assert(self.summaries() =~= old(self).summaries().insert(
                old_domain_id,
                SummaryView {
                    next_operators: seq_remove_all(
                        old(self).summaries()[old_domain_id].next_operators,
                        operator_id,
                    ),
                    ..old(self).summaries()[old_domain_id]
                },
            ));
            assert(self.switches() =~= old(self).switches().insert(
                old_domain_id,
                old(self).spec_switch_queue(old_domain_id).push(operator_id),
            ));
            assert forall|id: u64| old(self).ids_allocated() && id < self.next_id() implies
                self.owners().contains_key(id) && self.pools().contains_key(id) by {
                assert(old(self).owners().contains_key(id));
                assert(old(self).pools().contains_key(id));
            }
            assert forall|id: u64|
                old(self).ids_allocated() && (self.owners().contains_key(id)
                    || self.pools().contains_key(id)) implies id < self.next_id() by {
                assert(old(self).owners().contains_key(id) || old(self).pools().contains_key(id));
            }
        }
        Ok(old_domain_id)
    }

    /// In which order a deregistration reports its failures.
    pub open spec fn spec_deregister_error(&self, operator_owner: u64, operator_id: u64) -> Option<
        Error,
    > {
        if !(self.owners().contains_key(operator_id) && self.owners()[operator_id]
            == operator_owner) {
            Option::Some(Error::NotOperatorOwner)
        } else if !self.pools().contains_key(operator_id) {
            Option::Some(Error::UnknownOperator)
        } else if self.pools()[operator_id].is_frozen {
            Option::Some(Error::OperatorPoolFrozen)
        } else if !self.summaries().contains_key(self.pools()[operator_id].current_domain_id) {
            Option::Some(Error::DomainNotInitialized)
        } else {
            Option::None
        }
    }

    /// Freezes the owner's pool for good: the pool stays in the ledger with
    /// `is_frozen` set, leaves the current domain's next-epoch operators, and
    /// is queued for teardown at the epoch boundary. Freezing is one-way.
    pub fn deregister_operator(&mut self, operator_owner: u64, operator_id: u64) -> (r: Result<
        (),
        Error,
    >)
        ensures
            final(self).min_stake() == old(self).min_stake(),
            final(self).next_id() == old(self).next_id(),
            old(self).ids_allocated() ==> final(self).ids_allocated(),
            old(self).owners().contains_key(operator_id) && old(self).owners()[operator_id]
                == operator_owner && old(self).pools().contains_key(operator_id) && old(
                self,
            ).pools()[operator_id].is_frozen ==> r == Err::<(), Error>(Error::OperatorPoolFrozen)
                && *final(self) == *old(self),
            match r {
                Ok(()) => {
                    &&& old(self).spec_deregister_error(operator_owner, operator_id) is None
                    &&& final(self).pools() == old(self).pools().insert(
                        operator_id,
                        (OperatorPool { is_frozen: true, ..old(self).pools()[operator_id] }),
                    )
                    &&& final(self).pools()[operator_id].is_frozen
                    &&& final(self).summaries() == old(self).summaries().insert(
                        old(self).pools()[operator_id].current_domain_id,
                        (SummaryView {
                            next_operators: seq_remove_all(
                                old(self).summaries()[old(
                                    self,
                                ).pools()[operator_id].current_domain_id].next_operators,
                                operator_id,
                            ),
                            ..old(self).summaries()[old(
                                self,
                            ).pools()[operator_id].current_domain_id]
                        }),
                    )
                    &&& final(self).dereg_queue() == old(self).dereg_queue().push(operator_id)
                    &&& final(self).owners() == old(self).owners()
                    &&& final(self).nominator_shares() == old(self).nominator_shares()
                    &&& final(self).deposits() == old(self).deposits()
                    &&& final(self).withdrawals() == old(self).withdrawals()
                    &&& final(self).switches() == old(self).switches()
                },
                Err(e) => {
                    &&& Option::Some(e) == old(self).spec_deregister_error(
                        operator_owner,
                        operator_id,
                    )
                    &&& *final(self) == *old(self)
                },
            },
    {
        match self.operator_id_owner.get(operator_id) {
            Option::Some(o) => {
                if *o != operator_owner {
                    return Err(Error::NotOperatorOwner);
                }
            },
            Option::None => {
                return Err(Error::NotOperatorOwner);
            },
        }
        let mut pool = match self.operator_pools.get(operator_id) {
            Option::Some(p) => *p,
            Option::None => {
                return Err(Error::UnknownOperator);
            },
        };
        if pool.is_frozen {
            return Err(Error::OperatorPoolFrozen);
        }
        let domain_id = pool.current_domain_id;
        if !self.domain_staking_summary.contains_key(domain_id) {
            return Err(Error::DomainNotInitialized);
        }
        pool.is_frozen = true;
        self.operator_pools.insert(operator_id, pool);
        // present: the current domain was checked before any write
        let mut summary = match self.domain_staking_summary.remove(domain_id) {
            Option::Some(s) => s,
            Option::None => {
                proof {
                    assert(false);
                }
                return Err(Error::DomainNotInitialized);
            },
        };
        let kept = remove_all(&summary.next_operators, operator_id);
        summary.next_operators = kept;
        self.domain_staking_summary.insert(domain_id, summary);
        self.pending_operator_deregistrations.push(operator_id);
        proof {
            assert(self.summaries() =~= old(self).summaries().insert(
                domain_id,
                SummaryView {
                    next_operators: seq_remove_all(
                        old(self).summaries()[domain_id].next_operators,
                        operator_id,
                    ),
                    ..old(self).summaries()[domain_id]
                },
            ));
            assert(self.switches() =~= old(self).switches());
            assert forall|id: u64| old(self).ids_allocated() && id < self.next_id() implies
                self.owners().contains_key(id) && self.pools().contains_key(id) by {
                assert(old(self).owners().contains_key(id));
                assert(old(self).pools().contains_key(id));
            }
            assert forall|id: u64|
                old(self).ids_allocated() && (self.owners().contains_key(id)
                    || self.pools().contains_key(id)) implies id < self.next_id() by {
                assert(old(self).owners().contains_key(id) || old(self).pools().contains_key(id));
            }
        }
        Ok(())
    }

    /// The stored withdrawal intent of the nominator, if any.
    pub open spec fn spec_pending_withdrawal(&self, operator_id: u64, nominator_id: u64) -> Option<
        Withdraw,
    > {
        if self.withdrawals().contains_key((operator_id, nominator_id)) {
            Option::Some(self.withdrawals()[(operator_id, nominator_id)])
        } else {
            Option::None
        }
    }

    /// What one `withdraw_stake` call decides: the intent that ends up stored,
    /// or the failure, including every stake-floor rule. The pool owner may
    /// never fall below the host's minimum operator stake and may not withdraw
    /// fully; an ordinary nominator who would fall below the pool's minimum
    /// nominator stake is promoted to a full withdrawal.
    pub open spec fn spec_withdraw_outcome(
        &self,
        operator_id: u64,
        nominator_id: u64,
        withdraw: Withdraw,
    ) -> Result<Withdraw, Error> {
        if !self.pools().contains_key(operator_id) {
            Err(Error::UnknownOperator)
        } else if self.pools()[operator_id].is_frozen {
            Err(Error::OperatorPoolFrozen)
        } else if !self.nominator_shares().contains_key((operator_id, nominator_id)) {
            Err(Error::UnknownNominator)
        } else if !self.owners().contains_key(operator_id) {
            Err(Error::UnknownOperator)
        } else {
            match combine_withdraw(
                self.spec_pending_withdrawal(operator_id, nominator_id),
                withdraw,
            ) {
                Err(e) => Err(e),
                Ok(Withdraw::All) => if self.owners()[operator_id] == nominator_id {
                    Err(Error::MinimumOperatorStake)
                } else {
                    Ok(Withdraw::All)
                },
                Ok(Withdraw::Partial(w)) => {
                    let pool = self.pools()[operator_id];
                    if pool.current_total_stake + pool.current_epoch_rewards > u128::MAX {
                        Err(Error::BalanceOverflow)
                    } else {
                        let staked = nominator_stake_of(
                            self.nominator_shares()[(operator_id, nominator_id)].shares,
                            pool.total_shares,
                            (pool.current_total_stake + pool.current_epoch_rewards) as u128,
                        );
                        if staked < w {
                            Err(Error::BalanceUnderflow)
                        } else if self.owners()[operator_id] == nominator_id {
                            if staked - w < self.min_stake() {
                                Err(Error::MinimumOperatorStake)
                            } else {
                                Ok(Withdraw::Partial(w))
                            }
                        } else if staked - w < pool.minimum_nominator_stake {
                            Ok(Withdraw::All)
                        } else {
                            Ok(Withdraw::Partial(w))
                        }
                    }
                },
            }
        }
    }

    /// Combines the incoming withdrawal intent with any stored one, enforces
    /// the stake floors, and stores the resulting intent. The currency is not
    /// touched: funds move only at the epoch boundary.
    pub fn withdraw_stake(&mut self, operator_id: u64, nominator_id: u64, withdraw: Withdraw) -> (r:
        Result<(), Error>)
        ensures
            final(self).min_stake() == old(self).min_stake(),
            final(self).next_id() == old(self).next_id(),
            old(self).ids_allocated() ==> final(self).ids_allocated(),
            old(self).pools().contains_key(operator_id) && old(self).pools()[operator_id].is_frozen
                ==> r == Err::<(), Error>(Error::OperatorPoolFrozen) && *final(self) == *old(self),
            match r {
                Ok(()) => {
                    &&& old(self).spec_withdraw_outcome(operator_id, nominator_id, withdraw)
                        is Ok
                    &&& final(self).withdrawals() == old(self).withdrawals().insert(
                        (operator_id, nominator_id),
                        old(self).spec_withdraw_outcome(
                            operator_id,
                            nominator_id,
                            withdraw,
                        )->Ok_0,
                    )
                    &&& final(self).owners() == old(self).owners()
                    &&& final(self).pools() == old(self).pools()
                    &&& final(self).nominator_shares() == old(self).nominator_shares()
                    &&& final(self).deposits() == old(self).deposits()
                    &&& final(self).summaries() == old(self).summaries()
                    &&& final(self).switches() == old(self).switches()
                    &&& final(self).dereg_queue() == old(self).dereg_queue()
                },
                Err(e) => {
                    &&& old(self).spec_withdraw_outcome(operator_id, nominator_id, withdraw)
                        == Err::<Withdraw, Error>(e)
                    &&& *final(self) == *old(self)
                },
            },
            // The owner's residual stake never sinks below the host minimum: a
            // stored partial intent of the owner leaves at least `min_stake`.
            (r is Ok && old(self).owners()[operator_id] == nominator_id
                && final(self).withdrawals()[(operator_id, nominator_id)] is Partial)
                ==> nominator_stake_of(
                old(self).nominator_shares()[(operator_id, nominator_id)].shares,
                old(self).pools()[operator_id].total_shares,
                (old(self).pools()[operator_id].current_total_stake
                    + old(self).pools()[operator_id].current_epoch_rewards) as u128,
            ) - final(self).withdrawals()[(operator_id, nominator_id)]->Partial_0
                >= old(self).min_stake(),
    {
        let pool = match self.operator_pools.get(operator_id) {
            Option::Some(p) => *p,
            Option::None => {
                return Err(Error::UnknownOperator);
            },
        };
        if pool.is_frozen {
            return Err(Error::OperatorPoolFrozen);
        }
        let nominator = match self.nominators.get(operator_id, nominator_id) {
            Option::Some(n) => *n,
            Option::None => {
                return Err(Error::UnknownNominator);
            },
        };
        let operator_owner = match self.operator_id_owner.get(operator_id) {
            Option::Some(o) => *o,
            Option::None => {
                return Err(Error::UnknownOperator);
            },
        };
        let combined = match self.pending_withdrawals.get(operator_id, nominator_id) {
            Option::None => withdraw,
            Option::Some(existing) => match (*existing, withdraw) {
                (Withdraw::All, _) => {
                    return Err(Error::ExistingFullWithdraw);
                },
                (_, Withdraw::All) => Withdraw::All,
                (Withdraw::Partial(a), Withdraw::Partial(b)) => match a.checked_add(b) {
                    Option::Some(c) => Withdraw::Partial(c),
                    Option::None => {
                        return Err(Error::BalanceOverflow);
                    },
                },
            },
        };
        let stored = match combined {
            Withdraw::All => {
                if operator_owner == nominator_id {
                    return Err(Error::MinimumOperatorStake);
                }
                Withdraw::All
            },
            Withdraw::Partial(withdraw_amount) => {
                let total_pool_stake = match pool.current_total_stake.checked_add(
                    pool.current_epoch_rewards,
                ) {
                    Option::Some(t) => t,
                    Option::None => {
                        return Err(Error::BalanceOverflow);
                    },
                };
                let nominator_staked_amount = perbill_scale(
                    nominator.shares,
                    pool.total_shares,
                    total_pool_stake,
                );
                let nominator_remaining_amount = match nominator_staked_amount.checked_sub(
                    withdraw_amount,
                ) {
                    Option::Some(rm) => rm,
                    Option::None => {
                        return Err(Error::BalanceUnderflow);
                    },
                };
                if operator_owner == nominator_id {
                    if nominator_remaining_amount < self.min_operator_stake {
                        return Err(Error::MinimumOperatorStake);
                    }
                    Withdraw::Partial(withdraw_amount)
                } else if nominator_remaining_amount < pool.minimum_nominator_stake {
                    Withdraw::All
                } else {
                    Withdraw::Partial(withdraw_amount)
                }
            },
        };
        self.pending_withdrawals.insert(operator_id, nominator_id, stored);
        proof {
            assert forall|id: u64| old(self).ids_allocated() && id < self.next_id() implies
                self.owners().contains_key(id) && self.pools().contains_key(id) by {
                assert(old(self).owners().contains_key(id));
                assert(old(self).pools().contains_key(id));
            }
            assert forall|id: u64|
                old(self).ids_allocated() && (self.owners().contains_key(id)
                    || self.pools().contains_key(id)) implies id < self.next_id() by {
                assert(old(self).owners().contains_key(id) || old(self).pools().contains_key(id));
            }
        }
        Ok(())
    }

    /// The identifier the next registration will allocate.
    pub fn next_operator_id(&self) -> (r: u64)
        ensures
            r == self.next_id(),
    {
        self.next_operator_id
    }

    pub fn operator_id_owner(&self, operator_id: u64) -> (r: Option<u64>)
        ensures
            match r {
                Option::Some(o) => self.owners().contains_key(operator_id) && o
                    == self.owners()[operator_id],
                Option::None => !self.owners().contains_key(operator_id),
            },
    {
        match self.operator_id_owner.get(operator_id) {
            Option::Some(o) => Option::Some(*o),
            Option::None => Option::None,
        }
    }

    pub fn operator_pool(&self, operator_id: u64) -> (r: Option<OperatorPool>)
        ensures
            match r {
                Option::Some(p) => self.pools().contains_key(operator_id) && p
                    == self.pools()[operator_id],
                Option::None => !self.pools().contains_key(operator_id),
            },
    {
        match self.operator_pools.get(operator_id) {
            Option::Some(p) => Option::Some(*p),
            Option::None => Option::None,
        }
    }

    pub fn nominator(&self, operator_id: u64, nominator_id: u64) -> (r: Option<Nominator>)
        ensures
            match r {
                Option::Some(n) => self.nominator_shares().contains_key(
                    (operator_id, nominator_id),
                ) && n == self.nominator_shares()[(operator_id, nominator_id)],
                Option::None => !self.nominator_shares().contains_key((operator_id, nominator_id)),
            },
    {
        match self.nominators.get(operator_id, nominator_id) {
            Option::Some(n) => Option::Some(*n),
            Option::None => Option::None,
        }
    }

    pub fn pending_deposit(&self, operator_id: u64, nominator_id: u64) -> (r: Option<u128>)
        ensures
            match r {
                Option::Some(d) => self.deposits().contains_key((operator_id, nominator_id)) && d
                    == self.deposits()[(operator_id, nominator_id)],
                Option::None => !self.deposits().contains_key((operator_id, nominator_id)),
            },
    {
        match self.pending_deposits.get(operator_id, nominator_id) {
            Option::Some(d) => Option::Some(*d),
            Option::None => Option::None,
        }
    }

    pub fn pending_withdrawal(&self, operator_id: u64, nominator_id: u64) -> (r: Option<Withdraw>)
        ensures
            r == self.spec_pending_withdrawal(operator_id, nominator_id),
    {
        match self.pending_withdrawals.get(operator_id, nominator_id) {
            Option::Some(w) => Option::Some(*w),
            Option::None => Option::None,
        }
    }

    pub fn staking_summary(&self, domain_id: u64) -> (r: Option<&StakingSummary>)
        ensures
            match r {
                Option::Some(s) => self.summaries().contains_key(domain_id) && s@
                    == self.summaries()[domain_id],
                Option::None => !self.summaries().contains_key(domain_id),
            },
    {
        self.domain_staking_summary.get(domain_id)
    }

    pub fn pending_switches(&self, domain_id: u64) -> (r: Option<&Vec<u64>>)
        ensures
            match r {
                Option::Some(q) => self.switches().contains_key(domain_id) && q@
                    == self.switches()[domain_id],
                Option::None => !self.switches().contains_key(domain_id),
            },
    {
        self.pending_operator_switches.get(domain_id)
    }

    pub fn pending_deregistrations(&self) -> (r: &Vec<u64>)
        ensures
            r@ == self.dereg_queue(),
    {
        &self.pending_operator_deregistrations
    }

    /// Installs a domain's staking summary, as the host's genesis build or a
    /// test fixture does.
    pub fn insert_staking_summary(&mut self, domain_id: u64, summary: StakingSummary)
        ensures
            final(self).summaries() == old(self).summaries().insert(domain_id, summary@),
            final(self).next_id() == old(self).next_id(),
            final(self).owners() == old(self).owners(),
            final(self).pools() == old(self).pools(),
            final(self).nominator_shares() == old(self).nominator_shares(),
            final(self).deposits() == old(self).deposits(),
            final(self).withdrawals() == old(self).withdrawals(),
            final(self).switches() == old(self).switches(),
            final(self).dereg_queue() == old(self).dereg_queue(),
            final(self).min_stake() == old(self).min_stake(),
    {
        self.domain_staking_summary.insert(domain_id, summary);
        proof {
            assert(self.summaries() =~= old(self).summaries().insert(domain_id, summary@));
            assert(self.switches() =~= old(self).switches());
        }
    }

    /// Records the owner of an operator identifier, as a test fixture does.
    pub fn insert_operator_id_owner(&mut self, operator_id: u64, owner: u64)
        ensures
            final(self).owners() == old(self).owners().insert(operator_id, owner),
            final(self).next_id() == old(self).next_id(),
            final(self).pools() == old(self).pools(),
            final(self).nominator_shares() == old(self).nominator_shares(),
            final(self).deposits() == old(self).deposits(),
            final(self).withdrawals() == old(self).withdrawals(),
            final(self).summaries() == old(self).summaries(),
            final(self).switches() == old(self).switches(),
            final(self).dereg_queue() == old(self).dereg_queue(),
            final(self).min_stake() == old(self).min_stake(),
    {
        self.operator_id_owner.insert(operator_id, owner);
        proof {
            assert(self.summaries() =~= old(self).summaries());
            assert(self.switches() =~= old(self).switches());
        }
    }

    /// Installs an operator pool outright, as a test fixture does.
    pub fn insert_operator_pool(&mut self, operator_id: u64, pool: OperatorPool)
        ensures
            final(self).pools() == old(self).pools().insert(operator_id, pool),
            final(self).next_id() == old(self).next_id(),
            final(self).owners() == old(self).owners(),
            final(self).nominator_shares() == old(self).nominator_shares(),
            final(self).deposits() == old(self).deposits(),
            final(self).withdrawals() == old(self).withdrawals(),
            final(self).summaries() == old(self).summaries(),
            final(self).switches() == old(self).switches(),
            final(self).dereg_queue() == old(self).dereg_queue(),
            final(self).min_stake() == old(self).min_stake(),
    {
        self.operator_pools.insert(operator_id, pool);
        proof {
            assert(self.summaries() =~= old(self).summaries());
            assert(self.switches() =~= old(self).switches());
        }
    }

    /// Sets the allocation counter outright, as the host's genesis build or a
    /// state import does.
    pub fn set_next_operator_id(&mut self, next: u64)
        ensures
            final(self).next_id() == next,
            final(self).owners() == old(self).owners(),
            final(self).pools() == old(self).pools(),
            final(self).nominator_shares() == old(self).nominator_shares(),
            final(self).deposits() == old(self).deposits(),
            final(self).withdrawals() == old(self).withdrawals(),
            final(self).summaries() == old(self).summaries(),
            final(self).switches() == old(self).switches(),
            final(self).dereg_queue() == old(self).dereg_queue(),
            final(self).min_stake() == old(self).min_stake(),
    {
        self.next_operator_id = next;
        proof {
            assert(self.summaries() =~= old(self).summaries());
            assert(self.switches() =~= old(self).switches());
        }
    }

    /// Records a nominator's shares in a pool, as a test fixture does.
    pub fn insert_nominator(&mut self, operator_id: u64, nominator_id: u64, nominator: Nominator)
        ensures
            final(self).nominator_shares() == old(self).nominator_shares().insert(
                (operator_id, nominator_id),
                nominator,
            ),
            final(self).next_id() == old(self).next_id(),
            final(self).owners() == old(self).owners(),
            final(self).pools() == old(self).pools(),
            final(self).deposits() == old(self).deposits(),
            final(self).withdrawals() == old(self).withdrawals(),
            final(self).summaries() == old(self).summaries(),
            final(self).switches() == old(self).switches(),
            final(self).dereg_queue() == old(self).dereg_queue(),
            final(self).min_stake() == old(self).min_stake(),
    {
        self.nominators.insert(operator_id, nominator_id, nominator);
        proof {
            assert(self.summaries() =~= old(self).summaries());
            assert(self.switches() =~= old(self).switches());
        }
    }
}

/// `s` with every occurrence of `x` removed, order kept.
pub open spec fn seq_remove_all(s: Seq<u64>, x: u64) -> Seq<u64>
    decreases s.len(),
{
    if s.len() == 0 {
        Seq::empty()
    } else if s.last() == x {
        seq_remove_all(s.drop_last(), x)
    } else {
        seq_remove_all(s.drop_last(), x).push(s.last())
    }
}

fn remove_all(v: &Vec<u64>, x: u64) -> (r: Vec<u64>)
    ensures
        r@ == seq_remove_all(v@, x),
{
    let mut out: Vec<u64> = Vec::new();
    let n = v.len();
    let mut i: usize = 0;
    while i < n
        invariant
            i <= n,
            n == v@.len(),
            out@ == seq_remove_all(v@.take(i as int), x),
        decreases n - i,
    {
        proof {
            assert(v@.take(i as int + 1).drop_last() =~= v@.take(i as int));
            assert(v@.take(i as int + 1).last() == v@[i as int]);
            assert(seq_remove_all(v@.take(i as int + 1), x) == if v@[i as int] != x {
                seq_remove_all(v@.take(i as int), x).push(v@[i as int])
            } else {
                seq_remove_all(v@.take(i as int), x)
            });
        }
        if v[i] != x {
            out.push(v[i]);
        }
        i = i + 1;
    }
    proof {
        assert(v@.take(n as int) =~= v@);
    }
    out
}

} // verus!
