//! The registry of exchange pairs: creates a pair at most once per unordered
//! asset combination, looks pairs up under either argument order, and holds
//! the protocol-fee configuration.
//!
//! Deterministic derivation of a new pair's host address is the deployer's
//! (host's) work; the derived address is handed in and must be fresh.

use vstd::prelude::*;

use crate::errors::{Error, RaumFiFactoryError};

verus! {

/// A canonically ordered pair of asset identities.
pub struct Pair(pub u64, pub u64);

impl Pair {
    /// Order two distinct assets canonically.
    pub fn new(a: u64, b: u64) -> (r: Result<Pair, RaumFiFactoryError>)
        ensures
            a == b ==> r == Err::<Pair, _>(RaumFiFactoryError::CreatePairIdenticalTokens),
            a != b ==> {
                &&& r is Ok
                &&& r->Ok_0.0 == spec_canonical(a, b).0
                &&& r->Ok_0.1 == spec_canonical(a, b).1
            },
    {
        if a == b {
            return Err(RaumFiFactoryError::CreatePairIdenticalTokens);
        }
        if a < b {
            Ok(Pair(a, b))
        } else {
            Ok(Pair(b, a))
        }
    }

    /// The lower asset of the canonical order.
    pub fn token_0(&self) -> (r: &u64)
        ensures
            r == self.0,
    {
        &self.0
    }

    /// The higher asset of the canonical order.
    pub fn token_1(&self) -> (r: &u64)
        ensures
            r == self.1,
    {
        &self.1
    }
}

/// One registry record: a canonical asset pair and its pair address.
#[derive(Clone, Copy)]
pub struct PairEntry {
    pub token0: u64,
    pub token1: u64,
    pub pair: u64,
}

/// The canonical orientation of an unordered asset pair.
pub open spec fn spec_canonical(a: u64, b: u64) -> (u64, u64) {
    if a < b {
        (a, b)
    } else {
        (b, a)
    }
}

/// The pair address a sequence of records maps a canonical pair to.
pub open spec fn spec_find_pair(s: Seq<PairEntry>, token0: u64, token1: u64) -> Option<u64>
    decreases s.len(),
{
    if s.len() == 0 {
        None
    } else if s.last().token0 == token0 && s.last().token1 == token1 {
        Some(s.last().pair)
    } else {
        spec_find_pair(s.drop_last(), token0, token1)
    }
}

/// Each canonical pair appears at most once, canonically ordered, and each
/// pair address is used at most once.
pub open spec fn entries_wf(s: Seq<PairEntry>) -> bool {
    &&& forall|i: int| 0 <= i < s.len() ==> (#[trigger] s[i]).token0 < s[i].token1
    &&& forall|i: int, j: int|
        0 <= i < j < s.len() ==> !((#[trigger] s[i]).token0 == (#[trigger] s[j]).token0
            && s[i].token1 == s[j].token1)
    &&& forall|i: int, j: int|
        0 <= i < j < s.len() ==> (#[trigger] s[i]).pair != (#[trigger] s[j]).pair
}

/// A missing canonical pair maps to nothing.
pub proof fn lemma_find_pair_absent(s: Seq<PairEntry>, token0: u64, token1: u64)
    requires
        forall|i: int|
            0 <= i < s.len() ==> !((#[trigger] s[i]).token0 == token0 && s[i].token1 == token1),
    ensures
        spec_find_pair(s, token0, token1) is None,
    decreases s.len(),
{
    if s.len() == 0 {
    } else {
        assert(s.last() == s[s.len() - 1]);
        lemma_find_pair_absent(s.drop_last(), token0, token1);
    }
}

/// A recorded canonical pair maps to the address at its index.
pub proof fn lemma_find_pair_at_index(s: Seq<PairEntry>, i: int)
    requires
        entries_wf(s),
        0 <= i < s.len(),
    ensures
        spec_find_pair(s, s[i].token0, s[i].token1) == Some(s[i].pair),
    decreases s.len(),
{
    if i == s.len() - 1 {
    } else {
        assert(s.drop_last()[i] == s[i]);
        lemma_find_pair_at_index(s.drop_last(), i);
    }
}

/// Appending a record maps its pair and changes no other lookup.
pub proof fn lemma_find_pair_push(s: Seq<PairEntry>, e: PairEntry, token0: u64, token1: u64)
    ensures
        spec_find_pair(s.push(e), token0, token1) == (if token0 == e.token0 && token1
            == e.token1 {
            Some(e.pair)
        } else {
            spec_find_pair(s, token0, token1)
        }),
{
    let t = s.push(e);
    assert(t.drop_last() =~= s);
    assert(t.last() == e);
}

/// The pair registry.
pub struct FactoryContract {
    /// The registry's own account identity on the host ledger.
    pub address: u64,
    pub initialized: bool,
    pub fee_to_setter: u64,
    pub fee_to: u64,
    /// Reference to the deployment template for new pairs.
    pub pair_template: u64,
    pub pair_count: u32,
    pub pairs: Vec<PairEntry>,
}

impl FactoryContract {
    /// The registry invariant: well-formed records and an accurate count.
    pub open spec fn wf(self) -> bool {
        &&& entries_wf(self.pairs@)
        &&& self.pair_count == self.pairs@.len()
    }

    /// The registry's answer for an unordered asset pair.
    pub open spec fn spec_get_pair(self, token_a: u64, token_b: u64) -> Option<u64> {
        spec_find_pair(
            self.pairs@,
            spec_canonical(token_a, token_b).0,
            spec_canonical(token_a, token_b).1,
        )
    }

    /// A fresh, uninitialized registry at the given host address.
    pub fn new(address: u64) -> (r: FactoryContract)
        ensures
            r.wf(),
            r.address == address,
            !r.initialized,
            r.pair_count == 0,
            r.pairs@.len() == 0,
    {
        FactoryContract {
            address,
            initialized: false,
            fee_to_setter: 0,
            fee_to: 0,
            pair_template: 0,
            pair_count: 0,
            pairs: Vec::new(),
        }
    }

    /// One-time setup: the fee setter initially receives the fees, and the
    /// pair count starts at zero.
    pub fn initialize(&mut self, fee_to_setter: u64, pair_template: u64) -> (r: Result<(), Error>)
        requires
            old(self).wf(),
        ensures
            old(self).initialized ==> r == Err::<(), _>(Error::AlreadyInitialized) && *final(self)
                == *old(self),
            !old(self).initialized ==> {
                &&& r == Ok::<_, Error>(())
                &&& final(self).wf()
                &&& final(self).initialized
                &&& final(self).address == old(self).address
                &&& final(self).fee_to_setter == fee_to_setter
                &&& final(self).fee_to == fee_to_setter
                &&& final(self).pair_template == pair_template
                &&& final(self).pair_count == 0
                &&& final(self).pairs@.len() == 0
            },
    {
        if self.initialized {
            return Err(Error::AlreadyInitialized);
        }
        self.initialized = true;
        self.fee_to_setter = fee_to_setter;
        self.fee_to = fee_to_setter;
        self.pair_template = pair_template;
        self.pair_count = 0;
        self.pairs = Vec::new();
        Ok(())
    }

    /// How many pairs have been created.
    pub fn all_pairs_length(&self) -> (r: u32)
        ensures
            r == self.pair_count,
    {
        self.pair_count
    }

    /// Look up the pair for an unordered asset pair; absence is a `None`,
    /// not an error.
    pub fn get_pair(&self, token_a: u64, token_b: u64) -> (r: Option<u64>)
        requires
            self.wf(),
        ensures
            r == self.spec_get_pair(token_a, token_b),
    {
        let (token0, token1) = if token_a < token_b {
            (token_a, token_b)
        } else {
            (token_b, token_a)
        };
        let n = self.pairs.len();
        let mut i: usize = 0;
        while i < n
            invariant
                self.wf(),
                n == self.pairs@.len(),
                0 <= i <= n,
                token0 == spec_canonical(token_a, token_b).0,
                token1 == spec_canonical(token_a, token_b).1,
                forall|j: int|
                    0 <= j < i ==> !((#[trigger] self.pairs@[j]).token0 == token0
                        && self.pairs@[j].token1 == token1),
            decreases n - i,
        {
            if self.pairs[i].token0 == token0 && self.pairs[i].token1 == token1 {
                proof {
                    lemma_find_pair_at_index(self.pairs@, i as int);
                    assert(spec_find_pair(self.pairs@, token0, token1) == Some(
                        self.pairs@[i as int].pair,
                    ));
                    assert(spec_canonical(token_a, token_b).0 == token0);
                    assert(spec_canonical(token_a, token_b).1 == token1);
                }
                return Some(self.pairs[i].pair);
            }
            i = i + 1;
        }
        proof {
            lemma_find_pair_absent(self.pairs@, token0, token1);
        }
        None
    }

    /// Whether a pair exists for an unordered asset pair.
    pub fn pair_exists(&self, token_a: u64, token_b: u64) -> (r: bool)
        requires
            self.wf(),
        ensures
            r == (self.spec_get_pair(token_a, token_b) is Some),
    {
        match self.get_pair(token_a, token_b) {
            Some(_) => true,
            None => false,
        }
    }

    /// The configured protocol-fee recipient.
    pub fn get_fee_to(&self) -> (r: u64)
        ensures
            r == self.fee_to,
    {
        self.fee_to
    }

    /// Change the fee recipient; only the configured setter may.
    pub fn set_fee_to(&mut self, caller: u64, fee_to: u64) -> (r: Result<(), Error>)
        requires
            old(self).wf(),
        ensures
            caller != old(self).fee_to_setter ==> r == Err::<(), _>(Error::Forbidden)
                && *final(self) == *old(self),
            caller == old(self).fee_to_setter ==> r == Ok::<_, Error>(()) && *final(self) == (
            FactoryContract { fee_to, ..*old(self) }),
            final(self).wf(),
    {
        if caller != self.fee_to_setter {
            return Err(Error::Forbidden);
        }
        self.fee_to = fee_to;
        Ok(())
    }

    /// Change the fee setter; only the current setter may.
    pub fn set_fee_to_setter(&mut self, caller: u64, fee_to_setter: u64) -> (r: Result<(), Error>)
        requires
            old(self).wf(),
        ensures
            caller != old(self).fee_to_setter ==> r == Err::<(), _>(Error::Forbidden)
                && *final(self) == *old(self),
            caller == old(self).fee_to_setter ==> r == Ok::<_, Error>(()) && *final(self) == (
            FactoryContract { fee_to_setter, ..*old(self) }),
            final(self).wf(),
    {
        if caller != self.fee_to_setter {
            return Err(Error::Forbidden);
        }
        self.fee_to_setter = fee_to_setter;
        Ok(())
    }

    /// Create the pair for an unordered asset pair at the host-derived
    /// address; a second creation for the same combination fails.
    pub fn create_new_pair(&mut self, token_a: u64, token_b: u64, pair_address: u64) -> (r: Result<
        u64,
        Error,
    >)
        requires
            old(self).wf(),
            forall|i: int|
                0 <= i < old(self).pairs@.len() ==> (#[trigger] old(self).pairs@[i]).pair
                    != pair_address,
        ensures
            final(self).wf(),
            !old(self).initialized ==> r == Err::<u64, _>(Error::NotInitialized) && *final(self)
                == *old(self),
            old(self).initialized && token_a == token_b ==> r == Err::<u64, _>(
                Error::IdenticalAddresses,
            ) && *final(self) == *old(self),
            old(self).initialized && token_a != token_b && old(self).spec_get_pair(
                token_a,
                token_b,
            ) is Some ==> r == Err::<u64, _>(Error::PairExists) && *final(self) == *old(self),
            old(self).initialized && token_a != token_b && old(self).spec_get_pair(
                token_a,
                token_b,
            ) is None ==> (if old(self).pair_count == u32::MAX {
                r == Err::<u64, _>(Error::Overflow) && *final(self) == *old(self)
            } else {
                &&& r == Ok::<_, Error>(pair_address)
                &&& final(self).pairs@ == old(self).pairs@.push(
                    PairEntry {
                        token0: spec_canonical(token_a, token_b).0,
                        token1: spec_canonical(token_a, token_b).1,
                        pair: pair_address,
                    },
                )
                &&& final(self).pair_count == old(self).pair_count + 1
                &&& final(self).spec_get_pair(token_a, token_b) == Some(pair_address)
                &&& final(self).spec_get_pair(token_b, token_a) == Some(pair_address)
                &&& (forall|a: u64, b: u64|
                    !(spec_canonical(a, b) == spec_canonical(token_a, token_b))
                        ==> final(self).spec_get_pair(a, b) == old(self).spec_get_pair(a, b))
                &&& final(self).address == old(self).address
                &&& final(self).initialized == old(self).initialized
                &&& final(self).fee_to == old(self).fee_to
                &&& final(self).fee_to_setter == old(self).fee_to_setter
                &&& final(self).pair_template == old(self).pair_template
            }),
    {
        RaumFiV2Factory::create_pair(self, token_a, token_b, pair_address)
    }
}

/// The registry's internal operations, taking the registry state explicitly.
pub struct RaumFiV2Factory;

impl RaumFiV2Factory {
    /// See [`FactoryContract::create_new_pair`].
    pub fn create_pair(f: &mut FactoryContract, token_a: u64, token_b: u64, pair_address: u64) -> (
        r: Result<u64, Error>)
        requires
            old(f).wf(),
            forall|i: int|
                0 <= i < old(f).pairs@.len() ==> (#[trigger] old(f).pairs@[i]).pair
                    != pair_address,
        ensures
            final(f).wf(),
            !old(f).initialized ==> r == Err::<u64, _>(Error::NotInitialized) && *final(f) == *old(
                f,
            ),
            old(f).initialized && token_a == token_b ==> r == Err::<u64, _>(
                Error::IdenticalAddresses,
            ) && *final(f) == *old(f),
            old(f).initialized && token_a != token_b && old(f).spec_get_pair(token_a, token_b)
                is Some ==> r == Err::<u64, _>(Error::PairExists) && *final(f) == *old(f),
            old(f).initialized && token_a != token_b && old(f).spec_get_pair(token_a, token_b)
                is None ==> (if old(f).pair_count == u32::MAX {
                r == Err::<u64, _>(Error::Overflow) && *final(f) == *old(f)
            } else {
                &&& r == Ok::<_, Error>(pair_address)
                &&& final(f).pairs@ == old(f).pairs@.push(
                    PairEntry {
                        token0: spec_canonical(token_a, token_b).0,
                        token1: spec_canonical(token_a, token_b).1,
                        pair: pair_address,
                    },
                )
                &&& final(f).pair_count == old(f).pair_count + 1
                &&& final(f).spec_get_pair(token_a, token_b) == Some(pair_address)
                &&& final(f).spec_get_pair(token_b, token_a) == Some(pair_address)
                &&& (forall|a: u64, b: u64|
                    !(spec_canonical(a, b) == spec_canonical(token_a, token_b))
                        ==> final(f).spec_get_pair(a, b) == old(f).spec_get_pair(a, b))
                &&& final(f).address == old(f).address
                &&& final(f).initialized == old(f).initialized
                &&& final(f).fee_to == old(f).fee_to
                &&& final(f).fee_to_setter == old(f).fee_to_setter
                &&& final(f).pair_template == old(f).pair_template
            }),
    {
        if !f.initialized {
            return Err(Error::NotInitialized);
        }
        if token_a == token_b {
            return Err(Error::IdenticalAddresses);
        }
        let (token0, token1) = if token_a < token_b {
            (token_a, token_b)
        } else {
            (token_b, token_a)
        };
        match f.get_pair(token_a, token_b) {
            Some(_) => {
                return Err(Error::PairExists);
            },
            None => {},
        }
        if f.pair_count == u32::MAX {
            return Err(Error::Overflow);
        }
        let e = PairEntry { token0, token1, pair: pair_address };
        proof {
            assert forall|i: int|
                0 <= i < f.pairs@.len() implies !((#[trigger] f.pairs@[i]).token0 == token0
                    && f.pairs@[i].token1 == token1) by {
                if f.pairs@[i].token0 == token0 && f.pairs@[i].token1 == token1 {
                    lemma_find_pair_at_index(f.pairs@, i);
                }
            }
            assert forall|a: u64, b: u64|
                spec_find_pair(
                    f.pairs@.push(e),
                    spec_canonical(a, b).0,
                    spec_canonical(a, b).1,
                ) == (if spec_canonical(a, b) == (token0, token1) {
                    Some(e.pair)
                } else {
                    spec_find_pair(f.pairs@, spec_canonical(a, b).0, spec_canonical(a, b).1)
                }) by {
                lemma_find_pair_push(f.pairs@, e, spec_canonical(a, b).0, spec_canonical(a, b).1);
            }
        }
        self_push(f, e);
        f.pair_count = f.pair_count + 1;
        Ok(pair_address)
    }

    /// See [`FactoryContract::pair_exists`].
    pub fn pair_exists(f: &FactoryContract, token0: u64, token1: u64) -> (r: bool)
        requires
            f.wf(),
        ensures
            r == (f.spec_get_pair(token0, token1) is Some),
    {
        f.pair_exists(token0, token1)
    }

    /// See [`FactoryContract::set_fee_to`].
    pub fn set_fee_to(f: &mut FactoryContract, caller: u64, fee_to: u64) -> (r: Result<(), Error>)
        requires
            old(f).wf(),
        ensures
            caller != old(f).fee_to_setter ==> r == Err::<(), _>(Error::Forbidden) && *final(f)
                == *old(f),
            caller == old(f).fee_to_setter ==> r == Ok::<_, Error>(()) && *final(f) == (
            FactoryContract { fee_to, ..*old(f) }),
            final(f).wf(),
    {
        f.set_fee_to(caller, fee_to)
    }

    /// See [`FactoryContract::set_fee_to_setter`].
    pub fn set_fee_to_setter(f: &mut FactoryContract, caller: u64, fee_to_setter: u64) -> (r:
        Result<(), Error>)
        requires
            old(f).wf(),
        ensures
            caller != old(f).fee_to_setter ==> r == Err::<(), _>(Error::Forbidden) && *final(f)
                == *old(f),
            caller == old(f).fee_to_setter ==> r == Ok::<_, Error>(()) && *final(f) == (
            FactoryContract { fee_to_setter, ..*old(f) }),
            final(f).wf(),
    {
        f.set_fee_to_setter(caller, fee_to_setter)
    }
}

/// Push a registry record; pulled out so the borrow of the record list does
/// not overlap the count update.
fn self_push(f: &mut FactoryContract, e: PairEntry)
    ensures
        final(f).pairs@ == old(f).pairs@.push(e),
        final(f).address == old(f).address,
        final(f).initialized == old(f).initialized,
        final(f).fee_to == old(f).fee_to,
        final(f).fee_to_setter == old(f).fee_to_setter,
        final(f).pair_template == old(f).pair_template,
        final(f).pair_count == old(f).pair_count,
{
    f.pairs.push(e);
}

/// Lookups are symmetric in their arguments: the registry answers for the
/// unordered pair.
pub proof fn lemma_get_pair_symmetric(f: FactoryContract, token_a: u64, token_b: u64)
    ensures
        f.spec_get_pair(token_a, token_b) == f.spec_get_pair(token_b, token_a),
{
}

} // verus!