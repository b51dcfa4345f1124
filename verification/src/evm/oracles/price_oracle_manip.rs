//! Price manipulation: pools whose price moved too far within one execution.
//!
//! A price is the quotient of a pool's reserves. Quotients and the comparison
//! with a threshold are left to the caller, which says of each pool whether its
//! price moved; which pools are compared, and with what, is decided here.

use vstd::prelude::*;

use crate::evm::oracles::{push_report, report};
use crate::evm::types::{EVMAddress, EVMU256};

verus! {

pub const PRICE_ORACLE_BUG_IDX: u64 = 20;

/// The reserves of a pool.
#[derive(Clone, Copy, Debug, PartialEq, Eq, Structural)]
pub struct PoolState {
    pub pool_addr: EVMAddress,
    pub reserve_a: EVMU256,
    pub reserve_b: EVMU256,
}

impl PoolState {
    /// Whether the price is a number other than zero: a pool without the first
    /// reserve has price zero, one without the second has none.
    pub open spec fn priced(self) -> bool {
        self.reserve_a.value() != 0 && self.reserve_b.value() != 0
    }

    pub fn new(pool_addr: EVMAddress, reserve_a: EVMU256, reserve_b: EVMU256) -> (r: PoolState)
        ensures
            r == (PoolState { pool_addr, reserve_a, reserve_b }),
    {
        PoolState { pool_addr, reserve_a, reserve_b }
    }

    /// Whether the price is a number other than zero.
    pub fn has_price(&self) -> (r: bool)
        ensures
            r == self.priced(),
    {
        let zero = EVMU256::zero();
        self.reserve_a.exceeds(&zero) && self.reserve_b.exceeds(&zero)
    }

    /// The reserves as they go into the price: what does not fit is cut to the
    /// largest number that does.
    pub fn price_terms(&self) -> (r: (u128, u128))
        ensures
            r.0 == if self.reserve_a.value() <= u128::MAX {
                self.reserve_a.value()
            } else {
                u128::MAX as nat
            },
            r.1 == if self.reserve_b.value() <= u128::MAX {
                self.reserve_b.value()
            } else {
                u128::MAX as nat
            },
    {
        (self.reserve_a.saturating_to_u128(), self.reserve_b.saturating_to_u128())
    }
}

/// The first of `pools` with the address `addr`.
pub open spec fn first_pool(pools: Seq<PoolState>, addr: EVMAddress) -> Option<PoolState>
    decreases pools.len(),
{
    if pools.len() == 0 {
        None
    } else if pools[0].pool_addr == addr {
        Some(pools[0])
    } else {
        first_pool(pools.drop_first(), addr)
    }
}

/// Whether the price of `post` can be compared with that before.
pub open spec fn comparable(pre_pools: Seq<PoolState>, post: PoolState) -> bool {
    first_pool(pre_pools, post.pool_addr) matches Some(pre) && pre.priced()
}

/// Whether some pool that can be compared moved.
pub open spec fn some_moved(
    pre_pools: Seq<PoolState>,
    post_pools: Seq<PoolState>,
    moved: Seq<bool>,
) -> bool {
    exists|i: int|
        0 <= i < post_pools.len() && comparable(pre_pools, #[trigger] post_pools[i]) && moved[i]
}

/// Reports pools whose price moved too far since a snapshot.
pub struct PriceOracleOracle {
    /// The pools before the execution.
    pub pre_pools: Vec<PoolState>,
}

impl PriceOracleOracle {
    pub fn new() -> (r: PriceOracleOracle)
        ensures
            r.pre_pools@ == Seq::<PoolState>::empty(),
    {
        PriceOracleOracle { pre_pools: Vec::new() }
    }

    /// Remembers the pools before an execution.
    pub fn snapshot(&mut self, pools: Vec<PoolState>)
        ensures
            final(self).pre_pools == pools,
    {
        self.pre_pools = pools;
    }

    /// The snapshot that a pool is compared with: the first with its address.
    pub fn snapshot_of(&self, addr: EVMAddress) -> (r: Option<PoolState>)
        ensures
            r == first_pool(self.pre_pools@, addr),
    {
        let ghost all = self.pre_pools@;
        let mut i: usize = 0;
        assert(all.skip(0) =~= all);
        while i < self.pre_pools.len()
            invariant
                all == self.pre_pools@,
                i <= all.len(),
                first_pool(all, addr) == first_pool(all.skip(i as int), addr),
            decreases self.pre_pools.len() - i,
        {
            assert(all.skip(i as int).drop_first() =~= all.skip(i + 1));
            assert(all.skip(i as int)[0] == all[i as int]);
            if self.pre_pools[i].pool_addr == addr {
                return Some(self.pre_pools[i]);
            }
            i = i + 1;
        }
        None
    }

    /// Reports a bug where the price of some pool that can be compared moved;
    /// `moved` says of each pool whether its price left the tolerated range.
    pub fn inspect(&self, post_pools: &[PoolState], moved: &[bool]) -> (r: Vec<u64>)
        requires
            moved@.len() == post_pools@.len(),
        ensures
            r@ == report(
                some_moved(self.pre_pools@, post_pools@, moved@),
                PRICE_ORACLE_BUG_IDX,
            ),
    {
        let mut bugs: Vec<u64> = Vec::new();
        let mut found = false;
        let mut i: usize = 0;
        while i < post_pools.len() && !found
            invariant
                moved@.len() == post_pools@.len(),
                i <= post_pools@.len(),
                found == exists|j: int|
                    0 <= j < i && comparable(self.pre_pools@, #[trigger] post_pools@[j])
                        && moved@[j],
            decreases post_pools.len() - i,
        {
            let fits = match self.snapshot_of(post_pools[i].pool_addr) {
                Some(pre) => pre.has_price(),
                None => false,
            };
            found = fits && moved[i];
            i = i + 1;
            assert(found == (comparable(self.pre_pools@, post_pools@[i - 1]) && moved@[i - 1]));
        }
        push_report(&mut bugs, found, PRICE_ORACLE_BUG_IDX);
        bugs
    }

    /// Reports a bug where a swap was large enough to bypass a time-weighted
    /// price.
    pub fn inspect_twap_bypass(large_swap: bool) -> (r: Vec<u64>)
        ensures
            r@ == report(large_swap, PRICE_ORACLE_BUG_IDX),
    {
        let mut bugs: Vec<u64> = Vec::new();
        push_report(&mut bugs, large_swap, PRICE_ORACLE_BUG_IDX);
        bugs
    }
}

impl Default for PriceOracleOracle {
    fn default() -> (r: PriceOracleOracle)
        ensures
            r.pre_pools@ == Seq::<PoolState>::empty(),
    {
        Self::new()
    }
}

/// A pool that no snapshot was taken of is never reported, however its price
/// moved.
pub proof fn law_unknown_pool_not_comparable(pre_pools: Seq<PoolState>, post: PoolState)
    requires
        forall|i: int|
            0 <= i < pre_pools.len() ==> (#[trigger] pre_pools[i]).pool_addr != post.pool_addr,
    ensures
        !comparable(pre_pools, post),
    decreases pre_pools.len(),
{
    if pre_pools.len() > 0 {
        let rest = pre_pools.drop_first();
        assert forall|i: int| 0 <= i < rest.len() implies (#[trigger] rest[i]).pool_addr
            != post.pool_addr by {
            assert(rest[i] == pre_pools[i + 1]);
        }
        assert(pre_pools[0].pool_addr != post.pool_addr);
        law_unknown_pool_not_comparable(rest, post);
    }
}

} // verus!
