//! The pair's own pool-share ledger: balances per holder, allowances per
//! owner/spender pair, and a total supply that always equals the sum of the
//! balances. Balances never go negative and every update is overflow-checked.

use vstd::prelude::*;

use crate::errors::PairTokenError;

verus! {

/// One holder's pool-share balance.
#[derive(Clone, Copy)]
pub struct BalanceEntry {
    pub holder: u64,
    pub amount: i128,
}

/// One owner-to-spender allowance.
#[derive(Clone, Copy)]
pub struct AllowanceEntry {
    pub owner: u64,
    pub spender: u64,
    pub amount: i128,
}

// ---------------------------------------------------------------------------
// Specification model of the ledger
// ---------------------------------------------------------------------------

/// The balance a sequence of entries records for `holder`; zero if absent.
pub open spec fn spec_balance_of(s: Seq<BalanceEntry>, holder: u64) -> int
    decreases s.len(),
{
    if s.len() == 0 {
        0
    } else if s.last().holder == holder {
        s.last().amount as int
    } else {
        spec_balance_of(s.drop_last(), holder)
    }
}

/// The sum of all recorded balances.
pub open spec fn spec_sum(s: Seq<BalanceEntry>) -> int
    decreases s.len(),
{
    if s.len() == 0 {
        0
    } else {
        spec_sum(s.drop_last()) + s.last().amount
    }
}

/// Each holder appears at most once.
pub open spec fn holders_unique(s: Seq<BalanceEntry>) -> bool {
    forall|i: int, j: int|
        0 <= i < j < s.len() ==> (#[trigger] s[i]).holder != (#[trigger] s[j]).holder
}

/// No recorded balance is negative.
pub open spec fn balances_nonneg(s: Seq<BalanceEntry>) -> bool {
    forall|i: int| 0 <= i < s.len() ==> (#[trigger] s[i]).amount >= 0
}

/// The allowance a sequence of entries records for the owner/spender pair.
pub open spec fn spec_allowance_of(s: Seq<AllowanceEntry>, owner: u64, spender: u64) -> int
    decreases s.len(),
{
    if s.len() == 0 {
        0
    } else if s.last().owner == owner && s.last().spender == spender {
        s.last().amount as int
    } else {
        spec_allowance_of(s.drop_last(), owner, spender)
    }
}

/// Each owner/spender pair appears at most once.
pub open spec fn allowance_keys_unique(s: Seq<AllowanceEntry>) -> bool {
    forall|i: int, j: int|
        0 <= i < j < s.len() ==> ((#[trigger] s[i]).owner != (#[trigger] s[j]).owner || s[i].spender
            != s[j].spender)
}

// ---------------------------------------------------------------------------
// Lemmas about the ledger model
// ---------------------------------------------------------------------------

/// With unique holders, the recorded balance is the amount at the holder's
/// index.
pub proof fn lemma_balance_at_index(s: Seq<BalanceEntry>, i: int)
    requires
        holders_unique(s),
        0 <= i < s.len(),
    ensures
        spec_balance_of(s, s[i].holder) == s[i].amount,
    decreases s.len(),
{
    if i == s.len() - 1 {
    } else {
        assert(s.last().holder != s[i].holder);
        assert(s.drop_last()[i] == s[i]);
        lemma_balance_at_index(s.drop_last(), i);
    }
}

/// A holder that appears nowhere has a zero balance.
pub proof fn lemma_balance_absent(s: Seq<BalanceEntry>, holder: u64)
    requires
        forall|i: int| 0 <= i < s.len() ==> (#[trigger] s[i]).holder != holder,
    ensures
        spec_balance_of(s, holder) == 0,
    decreases s.len(),
{
    if s.len() == 0 {
    } else {
        assert(s.last() == s[s.len() - 1]);
        lemma_balance_absent(s.drop_last(), holder);
    }
}

/// With non-negative balances, each balance lies between zero and the sum.
pub proof fn lemma_balance_le_sum(s: Seq<BalanceEntry>, holder: u64)
    requires
        balances_nonneg(s),
    ensures
        0 <= spec_balance_of(s, holder) <= spec_sum(s),
    decreases s.len(),
{
    if s.len() == 0 {
    } else {
        assert(s.last() == s[s.len() - 1]);
        lemma_balance_le_sum(s.drop_last(), holder);
    }
}

/// Updating one entry moves the sum by the difference of the amounts.
pub proof fn lemma_sum_update(s: Seq<BalanceEntry>, i: int, e: BalanceEntry)
    requires
        0 <= i < s.len(),
    ensures
        spec_sum(s.update(i, e)) == spec_sum(s) - s[i].amount + e.amount,
    decreases s.len(),
{
    let t = s.update(i, e);
    if i == s.len() - 1 {
        assert(t.drop_last() =~= s.drop_last());
        assert(t.last() == e);
    } else {
        assert(t.drop_last() =~= s.drop_last().update(i, e));
        assert(t.last() == s.last());
        lemma_sum_update(s.drop_last(), i, e);
    }
}

/// Updating one entry, holder kept, rewrites that holder's balance and no
/// other.
pub proof fn lemma_balance_update(s: Seq<BalanceEntry>, i: int, e: BalanceEntry, holder: u64)
    requires
        holders_unique(s),
        0 <= i < s.len(),
        e.holder == s[i].holder,
    ensures
        spec_balance_of(s.update(i, e), holder) == (if holder == e.holder {
            e.amount as int
        } else {
            spec_balance_of(s, holder)
        }),
    decreases s.len(),
{
    let t = s.update(i, e);
    if i == s.len() - 1 {
        assert(t.drop_last() =~= s.drop_last());
        assert(t.last() == e);
        if holder != e.holder {
        }
    } else {
        assert(t.drop_last() =~= s.drop_last().update(i, e));
        assert(t.last() == s.last());
        assert(s.drop_last()[i] == s[i]);
        lemma_balance_update(s.drop_last(), i, e, holder);
        if holder == e.holder {
            assert(s.last().holder != s[i].holder);
        }
    }
}

/// Appending an entry for a new holder records its amount and leaves every
/// other balance alone; the sum grows by the amount.
pub proof fn lemma_balance_push(s: Seq<BalanceEntry>, e: BalanceEntry, holder: u64)
    ensures
        spec_sum(s.push(e)) == spec_sum(s) + e.amount,
        spec_balance_of(s.push(e), holder) == (if holder == e.holder {
            e.amount as int
        } else {
            spec_balance_of(s, holder)
        }),
{
    let t = s.push(e);
    assert(t.drop_last() =~= s);
    assert(t.last() == e);
}

/// The allowance analogue of `lemma_balance_at_index`.
pub proof fn lemma_allowance_at_index(s: Seq<AllowanceEntry>, i: int)
    requires
        allowance_keys_unique(s),
        0 <= i < s.len(),
    ensures
        spec_allowance_of(s, s[i].owner, s[i].spender) == s[i].amount,
    decreases s.len(),
{
    if i == s.len() - 1 {
    } else {
        assert(s.drop_last()[i] == s[i]);
        lemma_allowance_at_index(s.drop_last(), i);
    }
}

/// The allowance analogue of `lemma_balance_absent`.
pub proof fn lemma_allowance_absent(s: Seq<AllowanceEntry>, owner: u64, spender: u64)
    requires
        forall|i: int|
            0 <= i < s.len() ==> ((#[trigger] s[i]).owner != owner || s[i].spender != spender),
    ensures
        spec_allowance_of(s, owner, spender) == 0,
    decreases s.len(),
{
    if s.len() == 0 {
    } else {
        assert(s.last() == s[s.len() - 1]);
        lemma_allowance_absent(s.drop_last(), owner, spender);
    }
}

/// The allowance analogue of `lemma_balance_update`.
pub proof fn lemma_allowance_update(
    s: Seq<AllowanceEntry>,
    i: int,
    e: AllowanceEntry,
    owner: u64,
    spender: u64,
)
    requires
        allowance_keys_unique(s),
        0 <= i < s.len(),
        e.owner == s[i].owner,
        e.spender == s[i].spender,
    ensures
        spec_allowance_of(s.update(i, e), owner, spender) == (if owner == e.owner && spender
            == e.spender {
            e.amount as int
        } else {
            spec_allowance_of(s, owner, spender)
        }),
    decreases s.len(),
{
    let t = s.update(i, e);
    if i == s.len() - 1 {
        assert(t.drop_last() =~= s.drop_last());
        assert(t.last() == e);
    } else {
        assert(t.drop_last() =~= s.drop_last().update(i, e));
        assert(t.last() == s.last());
        assert(s.drop_last()[i] == s[i]);
        lemma_allowance_update(s.drop_last(), i, e, owner, spender);
    }
}

/// The allowance analogue of `lemma_balance_push`.
pub proof fn lemma_allowance_push(
    s: Seq<AllowanceEntry>,
    e: AllowanceEntry,
    owner: u64,
    spender: u64,
)
    ensures
        spec_allowance_of(s.push(e), owner, spender) == (if owner == e.owner && spender
            == e.spender {
            e.amount as int
        } else {
            spec_allowance_of(s, owner, spender)
        }),
{
    let t = s.push(e);
    assert(t.drop_last() =~= s);
    assert(t.last() == e);
}

// ---------------------------------------------------------------------------
// The stored ledger
// ---------------------------------------------------------------------------

/// Raw storage of the pool-share ledger.
pub struct PairTokenStorage {
    pub total_supply: i128,
    pub balances: Vec<BalanceEntry>,
    pub allowances: Vec<AllowanceEntry>,
}

impl PairTokenStorage {
    /// The ledger invariant: unique keys, non-negative balances, and a total
    /// supply equal to the sum of all balances.
    pub open spec fn wf(self) -> bool {
        &&& holders_unique(self.balances@)
        &&& balances_nonneg(self.balances@)
        &&& allowance_keys_unique(self.allowances@)
        &&& spec_sum(self.balances@) == self.total_supply
    }

    /// An empty ledger: no shares, no holders, no allowances.
    pub fn new() -> (r: PairTokenStorage)
        ensures
            r.wf(),
            r.total_supply == 0,
            forall|h: u64| spec_balance_of(r.balances@, h) == 0,
            forall|o: u64, s: u64| spec_allowance_of(r.allowances@, o, s) == 0,
    {
        let r = PairTokenStorage { total_supply: 0, balances: Vec::new(), allowances: Vec::new() };
        proof {
            assert forall|h: u64| spec_balance_of(r.balances@, h) == 0 by {
                lemma_balance_absent(r.balances@, h);
            }
            assert forall|o: u64, s: u64| spec_allowance_of(r.allowances@, o, s) == 0 by {
                lemma_allowance_absent(r.allowances@, o, s);
            }
        }
        r
    }

    /// Read the recorded total supply.
    pub fn get_total_supply(&self) -> (r: i128)
        ensures
            r == self.total_supply,
    {
        self.total_supply
    }

    /// Overwrite the recorded total supply. A raw primitive: the caller is
    /// responsible for keeping the supply equal to the sum of balances.
    pub fn set_total_supply(&mut self, amount: i128)
        ensures
            final(self).total_supply == amount,
            final(self).balances@ == old(self).balances@,
            final(self).allowances@ == old(self).allowances@,
    {
        self.total_supply = amount;
    }

    /// Read one holder's recorded balance; absent holders hold zero.
    pub fn get_balance(&self, id: u64) -> (r: i128)
        requires
            holders_unique(self.balances@),
        ensures
            r == spec_balance_of(self.balances@, id),
    {
        let n = self.balances.len();
        let mut i: usize = 0;
        while i < n
            invariant
                holders_unique(self.balances@),
                n == self.balances@.len(),
                0 <= i <= n,
                forall|j: int| 0 <= j < i ==> (#[trigger] self.balances@[j]).holder != id,
            decreases n - i,
        {
            if self.balances[i].holder == id {
                proof {
                    lemma_balance_at_index(self.balances@, i as int);
                }
                return self.balances[i].amount;
            }
            i = i + 1;
        }
        proof {
            lemma_balance_absent(self.balances@, id);
        }
        0
    }

    /// Overwrite one holder's balance. A raw primitive: the caller is
    /// responsible for adjusting the total supply by the reported difference.
    pub fn set_balance(&mut self, id: u64, amount: i128)
        requires
            holders_unique(old(self).balances@),
        ensures
            final(self).total_supply == old(self).total_supply,
            final(self).allowances@ == old(self).allowances@,
            holders_unique(final(self).balances@),
            spec_balance_of(final(self).balances@, id) == amount,
            forall|h: u64|
                h != id ==> spec_balance_of(final(self).balances@, h) == spec_balance_of(
                    old(self).balances@,
                    h,
                ),
            spec_sum(final(self).balances@) == spec_sum(old(self).balances@) - spec_balance_of(
                old(self).balances@,
                id,
            ) + amount,
            amount >= 0 && balances_nonneg(old(self).balances@) ==> balances_nonneg(
                final(self).balances@,
            ),
    {
        let n = self.balances.len();
        let mut i: usize = 0;
        while i < n
            invariant
                holders_unique(self.balances@),
                n == self.balances@.len(),
                0 <= i <= n,
                forall|j: int| 0 <= j < i ==> (#[trigger] self.balances@[j]).holder != id,
                self == old(self),
            decreases n - i,
        {
            if self.balances[i].holder == id {
                let e = BalanceEntry { holder: id, amount };
                proof {
                    lemma_balance_at_index(self.balances@, i as int);
                    lemma_sum_update(self.balances@, i as int, e);
                    assert forall|h: u64|
                        spec_balance_of(self.balances@.update(i as int, e), h) == (if h == id {
                            e.amount as int
                        } else {
                            spec_balance_of(self.balances@, h)
                        }) by {
                        lemma_balance_update(self.balances@, i as int, e, h);
                    }
                }
                self.balances[i] = e;
                return ;
            }
            i = i + 1;
        }
        let e = BalanceEntry { holder: id, amount };
        proof {
            lemma_balance_absent(self.balances@, id);
            assert forall|h: u64|
                spec_balance_of(self.balances@.push(e), h) == (if h == id {
                    e.amount as int
                } else {
                    spec_balance_of(self.balances@, h)
                }) by {
                lemma_balance_push(self.balances@, e, h);
            }
            lemma_balance_push(self.balances@, e, id);
        }
        self.balances.push(e);
    }

    /// Read one owner/spender allowance; absent pairs allow zero.
    pub fn get_allowance(&self, owner: u64, spender: u64) -> (r: i128)
        requires
            allowance_keys_unique(self.allowances@),
        ensures
            r == spec_allowance_of(self.allowances@, owner, spender),
    {
        let n = self.allowances.len();
        let mut i: usize = 0;
        while i < n
            invariant
                allowance_keys_unique(self.allowances@),
                n == self.allowances@.len(),
                0 <= i <= n,
                forall|j: int|
                    0 <= j < i ==> ((#[trigger] self.allowances@[j]).owner != owner
                        || self.allowances@[j].spender != spender),
            decreases n - i,
        {
            if self.allowances[i].owner == owner && self.allowances[i].spender == spender {
                proof {
                    lemma_allowance_at_index(self.allowances@, i as int);
                }
                return self.allowances[i].amount;
            }
            i = i + 1;
        }
        proof {
            lemma_allowance_absent(self.allowances@, owner, spender);
        }
        0
    }

    /// Overwrite one owner/spender allowance.
    pub fn set_allowance(&mut self, owner: u64, spender: u64, amount: i128)
        requires
            allowance_keys_unique(old(self).allowances@),
        ensures
            final(self).total_supply == old(self).total_supply,
            final(self).balances@ == old(self).balances@,
            allowance_keys_unique(final(self).allowances@),
            spec_allowance_of(final(self).allowances@, owner, spender) == amount,
            forall|o: u64, s: u64|
                !(o == owner && s == spender) ==> spec_allowance_of(final(self).allowances@, o, s)
                    == spec_allowance_of(old(self).allowances@, o, s),
    {
        let n = self.allowances.len();
        let mut i: usize = 0;
        while i < n
            invariant
                allowance_keys_unique(self.allowances@),
                n == self.allowances@.len(),
                0 <= i <= n,
                forall|j: int|
                    0 <= j < i ==> ((#[trigger] self.allowances@[j]).owner != owner
                        || self.allowances@[j].spender != spender),
                self == old(self),
            decreases n - i,
        {
            if self.allowances[i].owner == owner && self.allowances[i].spender == spender {
                let e = AllowanceEntry { owner, spender, amount };
                proof {
                    assert forall|o: u64, s: u64|
                        spec_allowance_of(self.allowances@.update(i as int, e), o, s) == (if o
                            == owner && s == spender {
                            e.amount as int
                        } else {
                            spec_allowance_of(self.allowances@, o, s)
                        }) by {
                        lemma_allowance_update(self.allowances@, i as int, e, o, s);
                    }
                }
                self.allowances[i] = e;
                return ;
            }
            i = i + 1;
        }
        let e = AllowanceEntry { owner, spender, amount };
        proof {
            assert forall|o: u64, s: u64|
                spec_allowance_of(self.allowances@.push(e), o, s) == (if o == owner && s
                    == spender {
                    e.amount as int
                } else {
                    spec_allowance_of(self.allowances@, o, s)
                }) by {
                lemma_allowance_push(self.allowances@, e, o, s);
            }
        }
        self.allowances.push(e);
    }

    /// Record a mint: raise the holder's balance and the total supply by the
    /// same checked amount.
    pub fn mint_logic(&mut self, to: u64, amount: i128) -> (r: Result<(), PairTokenError>)
        requires
            old(self).wf(),
        ensures
            amount < 0 ==> r == Err::<(), _>(PairTokenError::InvalidAmount),
            amount >= 0 && old(self).total_supply + amount > i128::MAX ==> r == Err::<(), _>(
                PairTokenError::Overflow,
            ),
            amount >= 0 && old(self).total_supply + amount <= i128::MAX ==> r == Ok::<_, PairTokenError>(()),
            r is Ok ==> {
                &&& final(self).wf()
                &&& final(self).total_supply == old(self).total_supply + amount
                &&& spec_balance_of(final(self).balances@, to) == spec_balance_of(
                    old(self).balances@,
                    to,
                ) + amount
                &&& forall|h: u64|
                    h != to ==> spec_balance_of(final(self).balances@, h) == spec_balance_of(
                        old(self).balances@,
                        h,
                    )
                &&& final(self).allowances@ == old(self).allowances@
            },
            r is Err ==> *final(self) == *old(self),
    {
        if amount < 0 {
            return Err(PairTokenError::InvalidAmount);
        }
        let balance = self.get_balance(to);
        proof {
            lemma_balance_le_sum(self.balances@, to);
        }
        let new_balance = match balance.checked_add(amount) {
            Some(b) => b,
            None => {
                return Err(PairTokenError::Overflow);
            },
        };
        let new_supply = match self.total_supply.checked_add(amount) {
            Some(s) => s,
            None => {
                return Err(PairTokenError::Overflow);
            },
        };
        self.set_balance(to, new_balance);
        self.set_total_supply(new_supply);
        Ok(())
    }

    /// Record a burn: lower the holder's balance and the total supply by the
    /// same checked amount; a balance never goes negative.
    pub fn burn_logic(&mut self, from: u64, amount: i128) -> (r: Result<(), PairTokenError>)
        requires
            old(self).wf(),
        ensures
            amount < 0 ==> r == Err::<(), _>(PairTokenError::InvalidAmount),
            amount >= 0 && spec_balance_of(old(self).balances@, from) < amount ==> r == Err::<
                (),
                _,
            >(PairTokenError::InsufficientBalance),
            amount >= 0 && spec_balance_of(old(self).balances@, from) >= amount ==> r == Ok::<
                _,
                PairTokenError,
            >(()),
            r is Ok ==> {
                &&& final(self).wf()
                &&& final(self).total_supply == old(self).total_supply - amount
                &&& spec_balance_of(final(self).balances@, from) == spec_balance_of(
                    old(self).balances@,
                    from,
                ) - amount
                &&& forall|h: u64|
                    h != from ==> spec_balance_of(final(self).balances@, h) == spec_balance_of(
                        old(self).balances@,
                        h,
                    )
                &&& final(self).allowances@ == old(self).allowances@
            },
            r is Err ==> *final(self) == *old(self),
    {
        if amount < 0 {
            return Err(PairTokenError::InvalidAmount);
        }
        let balance = self.get_balance(from);
        proof {
            lemma_balance_le_sum(self.balances@, from);
        }
        if balance < amount {
            return Err(PairTokenError::InsufficientBalance);
        }
        let new_balance = balance - amount;
        let new_supply = self.total_supply - amount;
        self.set_balance(from, new_balance);
        self.set_total_supply(new_supply);
        Ok(())
    }
}

/// Two distinct holders together never hold more than the sum.
pub proof fn lemma_two_balances_le_sum(s: Seq<BalanceEntry>, h1: u64, h2: u64)
    requires
        balances_nonneg(s),
        h1 != h2,
    ensures
        spec_balance_of(s, h1) + spec_balance_of(s, h2) <= spec_sum(s),
    decreases s.len(),
{
    if s.len() == 0 {
    } else {
        assert(s.last() == s[s.len() - 1]);
        if s.last().holder == h1 {
            lemma_balance_le_sum(s.drop_last(), h2);
        } else if s.last().holder == h2 {
            lemma_balance_le_sum(s.drop_last(), h1);
        } else {
            lemma_two_balances_le_sum(s.drop_last(), h1, h2);
        }
    }
}

// ---------------------------------------------------------------------------
// The pool-share token operations
// ---------------------------------------------------------------------------

/// Business operations of the pool-share token, layered over the raw ledger.
/// Mint and burn are only ever driven by the pair itself.
pub struct PairToken;

impl PairToken {
    /// Mint `amount` new shares to `to`; the amount must be positive.
    pub fn mint_token(ledger: &mut PairTokenStorage, to: u64, amount: i128) -> (r: Result<
        (),
        PairTokenError,
    >)
        requires
            old(ledger).wf(),
        ensures
            amount <= 0 ==> r == Err::<(), _>(PairTokenError::InvalidAmount),
            amount > 0 && old(ledger).total_supply + amount > i128::MAX ==> r == Err::<(), _>(
                PairTokenError::Overflow,
            ),
            amount > 0 && old(ledger).total_supply + amount <= i128::MAX ==> r == Ok::<
                _,
                PairTokenError,
            >(()),
            r is Ok ==> {
                &&& final(ledger).wf()
                &&& final(ledger).total_supply == old(ledger).total_supply + amount
                &&& spec_balance_of(final(ledger).balances@, to) == spec_balance_of(
                    old(ledger).balances@,
                    to,
                ) + amount
                &&& forall|h: u64|
                    h != to ==> spec_balance_of(final(ledger).balances@, h) == spec_balance_of(
                        old(ledger).balances@,
                        h,
                    )
                &&& final(ledger).allowances@ == old(ledger).allowances@
            },
            r is Err ==> *final(ledger) == *old(ledger),
    {
        if amount <= 0 {
            return Err(PairTokenError::InvalidAmount);
        }
        ledger.mint_logic(to, amount)
    }

    /// Burn `amount` shares held by `from`; the holder must cover it.
    pub fn burn_token(ledger: &mut PairTokenStorage, from: u64, amount: i128) -> (r: Result<
        (),
        PairTokenError,
    >)
        requires
            old(ledger).wf(),
        ensures
            amount < 0 ==> r == Err::<(), _>(PairTokenError::InvalidAmount),
            amount >= 0 && spec_balance_of(old(ledger).balances@, from) < amount ==> r == Err::<
                (),
                _,
            >(PairTokenError::InsufficientBalance),
            amount >= 0 && spec_balance_of(old(ledger).balances@, from) >= amount ==> r == Ok::<
                _,
                PairTokenError,
            >(()),
            r is Ok ==> {
                &&& final(ledger).wf()
                &&& final(ledger).total_supply == old(ledger).total_supply - amount
                &&& spec_balance_of(final(ledger).balances@, from) == spec_balance_of(
                    old(ledger).balances@,
                    from,
                ) - amount
                &&& forall|h: u64|
                    h != from ==> spec_balance_of(final(ledger).balances@, h) == spec_balance_of(
                        old(ledger).balances@,
                        h,
                    )
                &&& final(ledger).allowances@ == old(ledger).allowances@
            },
            r is Err ==> *final(ledger) == *old(ledger),
    {
        ledger.burn_logic(from, amount)
    }

    /// Read one holder's share balance.
    pub fn balance(ledger: &PairTokenStorage, id: u64) -> (r: i128)
        requires
            ledger.wf(),
        ensures
            r == spec_balance_of(ledger.balances@, id),
    {
        ledger.get_balance(id)
    }

    /// Read one owner/spender allowance.
    pub fn allowance(ledger: &PairTokenStorage, owner: u64, spender: u64) -> (r: i128)
        requires
            ledger.wf(),
        ensures
            r == spec_allowance_of(ledger.allowances@, owner, spender),
    {
        ledger.get_allowance(owner, spender)
    }

    /// Record an allowance from an owner to a spender. Authorization of the
    /// owner is the host's duty and precedes this call.
    pub fn approve(ledger: &mut PairTokenStorage, owner: u64, spender: u64, amount: i128) -> (r:
        bool)
        requires
            old(ledger).wf(),
        ensures
            r == true,
            final(ledger).wf(),
            final(ledger).total_supply == old(ledger).total_supply,
            final(ledger).balances@ == old(ledger).balances@,
            spec_allowance_of(final(ledger).allowances@, owner, spender) == amount,
            forall|o: u64, s: u64|
                !(o == owner && s == spender) ==> spec_allowance_of(final(ledger).allowances@, o, s)
                    == spec_allowance_of(old(ledger).allowances@, o, s),
    {
        ledger.set_allowance(owner, spender, amount);
        true
    }

    /// Move shares between holders. Authorization of `from` is the host's
    /// duty and precedes this call.
    pub fn transfer(ledger: &mut PairTokenStorage, from: u64, to: u64, amount: i128) -> (r: Result<
        bool,
        PairTokenError,
    >)
        requires
            old(ledger).wf(),
        ensures
            amount < 0 ==> r == Err::<bool, _>(PairTokenError::InvalidAmount),
            amount >= 0 && spec_balance_of(old(ledger).balances@, from) < amount ==> r == Err::<
                bool,
                _,
            >(PairTokenError::InsufficientBalance),
            amount >= 0 && spec_balance_of(old(ledger).balances@, from) >= amount ==> r == Ok::<
                _,
                PairTokenError,
            >(true),
            r is Ok ==> {
                &&& final(ledger).wf()
                &&& final(ledger).total_supply == old(ledger).total_supply
                &&& final(ledger).allowances@ == old(ledger).allowances@
                &&& (from != to ==> spec_balance_of(final(ledger).balances@, from)
                    == spec_balance_of(old(ledger).balances@, from) - amount && spec_balance_of(
                    final(ledger).balances@,
                    to,
                ) == spec_balance_of(old(ledger).balances@, to) + amount)
                &&& (from == to ==> spec_balance_of(final(ledger).balances@, from)
                    == spec_balance_of(old(ledger).balances@, from))
                &&& forall|h: u64|
                    h != from && h != to ==> spec_balance_of(final(ledger).balances@, h)
                        == spec_balance_of(old(ledger).balances@, h)
            },
            r is Err ==> *final(ledger) == *old(ledger),
    {
        if amount < 0 {
            return Err(PairTokenError::InvalidAmount);
        }
        let from_balance = ledger.get_balance(from);
        if from_balance < amount {
            return Err(PairTokenError::InsufficientBalance);
        }
        proof {
            lemma_balance_le_sum(ledger.balances@, from);
            if from != to {
                lemma_two_balances_le_sum(ledger.balances@, from, to);
            }
        }
        ledger.set_balance(from, from_balance - amount);
        proof {
            lemma_balance_le_sum(ledger.balances@, to);
        }
        let to_balance = ledger.get_balance(to);
        let new_to_balance = match to_balance.checked_add(amount) {
            Some(b) => b,
            None => {
                proof {
                    assert(false);
                }
                return Err(PairTokenError::Overflow);
            },
        };
        ledger.set_balance(to, new_to_balance);
        Ok(true)
    }
}

} // verus!
