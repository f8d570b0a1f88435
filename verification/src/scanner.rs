//! Tracked token pairs and the integer side of opportunity validation.
//!
//! Pool prices and spreads are floating point and stay with the
//! application's scanner. The round trip that validates a candidate is in
//! token units: a probe of 1 000 whole token0 is quoted through the buy
//! router and back through the sell router, and the candidate stands only
//! if more comes back than went in.

use crate::address::Address;
use crate::price_oracle::age;
use crate::text::str_equal;
use vstd::prelude::*;

verus! {

/// A DEX name with an address (a pool or a router).
pub open spec fn named_view(p: (String, Address)) -> (Seq<char>, Seq<u8>) {
    (p.0@, p.1.bytes@)
}

/// The views of a list of named addresses.
pub open spec fn named_views(s: Seq<(String, Address)>) -> Seq<(Seq<char>, Seq<u8>)> {
    s.map_values(|p: (String, Address)| named_view(p))
}

/// A token pair with its pools and routers on each DEX that lists it.
pub struct TrackedPair {
    pub label: String,
    /// (DEX name, pool address)
    pub pools: Vec<(String, Address)>,
    pub token0: Address,
    pub token1: Address,
    /// (DEX name, router address)
    pub routers: Vec<(String, Address)>,
}

/// A tracked pair as a value.
pub struct TrackedPairView {
    pub label: Seq<char>,
    pub pools: Seq<(Seq<char>, Seq<u8>)>,
    pub token0: Seq<u8>,
    pub token1: Seq<u8>,
    pub routers: Seq<(Seq<char>, Seq<u8>)>,
}

impl TrackedPair {
    pub open spec fn view(&self) -> TrackedPairView {
        TrackedPairView {
            label: self.label@,
            pools: named_views(self.pools@),
            token0: self.token0.bytes@,
            token1: self.token1.bytes@,
            routers: named_views(self.routers@),
        }
    }
}

/// The views of a list of tracked pairs.
pub open spec fn pairs_view(pairs: Seq<TrackedPair>) -> Seq<TrackedPairView> {
    pairs.map_values(|p: TrackedPair| p@)
}

/// The first router named `dex` in `routers`.
pub open spec fn first_router_named(routers: Seq<(Seq<char>, Seq<u8>)>, dex: Seq<char>) -> Option<
    Seq<u8>,
>
    decreases routers.len(),
{
    if routers.len() == 0 {
        None
    } else if routers[0].0 == dex {
        Some(routers[0].1)
    } else {
        first_router_named(routers.drop_first(), dex)
    }
}

/// The router of `dex` in the first pair that lists one.
pub open spec fn spec_router_for_dex(pairs: Seq<TrackedPairView>, dex: Seq<char>) -> Option<
    Seq<u8>,
>
    decreases pairs.len(),
{
    if pairs.len() == 0 {
        None
    } else {
        match first_router_named(pairs[0].routers, dex) {
            Some(r) => Some(r),
            None => spec_router_for_dex(pairs.drop_first(), dex),
        }
    }
}

proof fn lemma_first_router_step(routers: Seq<(Seq<char>, Seq<u8>)>, dex: Seq<char>, j: int)
    requires
        0 <= j < routers.len(),
        forall|k: int| 0 <= k < j ==> routers[k].0 != dex,
    ensures
        first_router_named(routers, dex) == first_router_named(routers.subrange(j, routers.len() as int), dex),
    decreases j,
{
    if j > 0 {
        assert(routers.subrange(1, routers.len() as int) =~= routers.drop_first());
        lemma_first_router_step(routers.drop_first(), dex, j - 1);
        assert(routers.drop_first().subrange(j - 1, routers.len() - 1) =~= routers.subrange(j, routers.len() as int));
    } else {
        assert(routers.subrange(0, routers.len() as int) =~= routers);
    }
}

proof fn lemma_router_for_dex_step(pairs: Seq<TrackedPairView>, dex: Seq<char>, i: int)
    requires
        0 <= i <= pairs.len(),
        forall|k: int| 0 <= k < i ==> first_router_named(#[trigger] pairs[k].routers, dex) is None,
    ensures
        spec_router_for_dex(pairs, dex) == spec_router_for_dex(pairs.subrange(i, pairs.len() as int), dex),
    decreases i,
{
    if i > 0 {
        assert(first_router_named(pairs[0].routers, dex) is None);
        lemma_router_for_dex_step(pairs.drop_first(), dex, i - 1);
        assert(pairs.drop_first().subrange(i - 1, pairs.len() - 1) =~= pairs.subrange(i, pairs.len() as int));
    } else {
        assert(pairs.subrange(0, pairs.len() as int) =~= pairs);
    }
}

/// The router of `dex_name` in `routers`, first match.
fn router_in(routers: &Vec<(String, Address)>, dex_name: &str) -> (r: Option<Address>)
    ensures
        match first_router_named(named_views(routers@), dex_name@) {
            Some(b) => r matches Some(a) && a.bytes@ == b,
            None => r is None,
        },
{
    let ghost rv = named_views(routers@);
    let n = routers.len();
    let mut j: usize = 0;
    while j < n
        invariant
            j <= n,
            n == routers@.len(),
            rv == named_views(routers@),
            forall|k: int| 0 <= k < j ==> rv[k].0 != dex_name@,
        decreases n - j,
    {
        proof {
            lemma_first_router_step(rv, dex_name@, j as int);
        }
        if str_equal(routers[j].0.as_str(), dex_name) {
            return Some(routers[j].1);
        }
        j = j + 1;
    }
    proof {
        if n > 0 {
            lemma_first_router_step(rv, dex_name@, (n - 1) as int);
            let last = rv.subrange(n - 1, n as int);
            assert(last[0] == rv[n - 1]);
            assert(last.drop_first().len() == 0);
            assert(first_router_named(last.drop_first(), dex_name@) is None);
        }
    }
    None
}

/// The router of `dex_name`: the first one named so, in the first pair that
/// lists one.
pub fn router_for_dex(pairs: &Vec<TrackedPair>, dex_name: &str) -> (r: Option<Address>)
    ensures
        match spec_router_for_dex(pairs_view(pairs@), dex_name@) {
            Some(b) => r matches Some(a) && a.bytes@ == b,
            None => r is None,
        },
{
    let ghost pv = pairs_view(pairs@);
    let n = pairs.len();
    let mut i: usize = 0;
    while i < n
        invariant
            i <= n,
            n == pairs@.len(),
            pv == pairs_view(pairs@),
            forall|k: int| 0 <= k < i ==> first_router_named(#[trigger] pv[k].routers, dex_name@) is None,
        decreases n - i,
    {
        proof {
            lemma_router_for_dex_step(pv, dex_name@, i as int);
            assert(pv.subrange(i as int, n as int)[0] == pv[i as int]);
        }
        match router_in(&pairs[i].routers, dex_name) {
            Some(a) => {
                return Some(a);
            },
            None => {},
        }
        i = i + 1;
    }
    proof {
        lemma_router_for_dex_step(pv, dex_name@, n as int);
    }
    None
}

/// The position of the first pair labelled `label`, if any.
pub fn find_pair(pairs: &Vec<TrackedPair>, label: &str) -> (r: Option<usize>)
    ensures
        match r {
            Some(i) => i < pairs@.len() && pairs@[i as int].label@ == label@ && forall|k: int|
                0 <= k < i ==> pairs@[k].label@ != label@,
            None => forall|k: int| 0 <= k < pairs@.len() ==> pairs@[k].label@ != label@,
        },
{
    let n = pairs.len();
    let mut i: usize = 0;
    while i < n
        invariant
            i <= n,
            n == pairs@.len(),
            forall|k: int| 0 <= k < i ==> pairs@[k].label@ != label@,
        decreases n - i,
    {
        if str_equal(pairs[i].label.as_str(), label) {
            return Some(i);
        }
        i = i + 1;
    }
    None
}

/// `10^n`.
pub open spec fn pow10(n: nat) -> nat
    decreases n,
{
    if n == 0 {
        1
    } else {
        10 * pow10((n - 1) as nat)
    }
}

/// The largest token0 decimals for which the probe fits in a `u128`.
pub const MAX_PROBE_DECIMALS: u32 = 35;

proof fn lemma_pow10_monotone(a: nat, b: nat)
    requires
        a <= b,
    ensures
        pow10(a) <= pow10(b),
    decreases b,
{
    if a < b {
        lemma_pow10_monotone(a, (b - 1) as nat);
    }
}

/// The probe amount of the round trip: 1 000 whole token0, in base units.
pub fn probe_amount(token0_decimals: u32) -> (p: u128)
    requires
        token0_decimals <= MAX_PROBE_DECIMALS,
    ensures
        p == 1000 * pow10(token0_decimals as nat),
{
    proof {
        reveal_with_fuel(pow10, 36);
        assert(pow10(35) == 100_000_000_000_000_000_000_000_000_000_000_000nat);
        lemma_pow10_monotone(token0_decimals as nat, 35);
    }
    let mut scale: u128 = 1;
    let mut i: u32 = 0;
    while i < token0_decimals
        invariant
            i <= token0_decimals <= MAX_PROBE_DECIMALS,
            scale == pow10(i as nat),
            pow10(token0_decimals as nat) <= 100_000_000_000_000_000_000_000_000_000_000_000nat,
        decreases token0_decimals - i,
    {
        proof {
            lemma_pow10_monotone((i + 1) as nat, token0_decimals as nat);
        }
        scale = scale * 10;
        i = i + 1;
    }
    1000 * scale
}

/// Whether a round trip is worth keeping: strictly more token0 came back
/// than the probe sent out.
pub fn round_trip_profitable(probe: u128, returned: u128) -> (r: bool)
    ensures
        r == (returned > probe),
{
    returned > probe
}

/// Reserves read from one pool.
#[derive(Debug)]
pub struct PoolQuote {
    pub dex_name: String,
    pub pool: Address,
    pub reserve_token0: u128,
    pub reserve_token1: u128,
    pub token0: Address,
    pub token1: Address,
}

/// A pool quote as a value.
pub struct PoolQuoteView {
    pub dex_name: Seq<char>,
    pub pool: Seq<u8>,
    pub reserve_token0: u128,
    pub reserve_token1: u128,
    pub token0: Seq<u8>,
    pub token1: Seq<u8>,
}

impl PoolQuote {
    pub open spec fn view(&self) -> PoolQuoteView {
        PoolQuoteView {
            dex_name: self.dex_name@,
            pool: self.pool.bytes@,
            reserve_token0: self.reserve_token0,
            reserve_token1: self.reserve_token1,
            token0: self.token0.bytes@,
            token1: self.token1.bytes@,
        }
    }

    /// A copy of this quote.
    pub fn duplicate(&self) -> (q: PoolQuote)
        ensures
            q@ == self@,
    {
        PoolQuote {
            dex_name: self.dex_name.clone(),
            pool: self.pool,
            reserve_token0: self.reserve_token0,
            reserve_token1: self.reserve_token1,
            token0: self.token0,
            token1: self.token1,
        }
    }
}

/// A cached quote, stamped with the millisecond it was fetched at.
pub struct CachedQuote {
    pub quote: PoolQuote,
    pub fetched_at_ms: u64,
}

/// A cached quote as a value.
pub struct CachedQuoteView {
    pub quote: PoolQuoteView,
    pub fetched_at_ms: u64,
}

/// The quotes of a cache as values.
pub open spec fn cached_view(es: Seq<CachedQuote>) -> Seq<CachedQuoteView> {
    es.map_values(|e: CachedQuote| CachedQuoteView { quote: e.quote@, fetched_at_ms: e.fetched_at_ms })
}

/// A cached quote is for the pool `pool` of the DEX `dex`.
pub open spec fn is_for(e: CachedQuoteView, dex: Seq<char>, pool: Seq<u8>) -> bool {
    e.quote.dex_name == dex && e.quote.pool == pool
}

/// The position of the first cached quote for (`dex`, `pool`).
pub open spec fn first_for(es: Seq<CachedQuoteView>, dex: Seq<char>, pool: Seq<u8>) -> Option<int>
    decreases es.len(),
{
    if es.len() == 0 {
        None
    } else if is_for(es[0], dex, pool) {
        Some(0)
    } else {
        match first_for(es.drop_first(), dex, pool) {
            Some(i) => Some(i + 1),
            None => None,
        }
    }
}

/// The first cached quote for (`dex`, `pool`), if any.
pub open spec fn entry_for(es: Seq<CachedQuoteView>, dex: Seq<char>, pool: Seq<u8>) -> Option<
    CachedQuoteView,
> {
    match first_for(es, dex, pool) {
        Some(i) => Some(es[i]),
        None => None,
    }
}

/// What a cache lookup gives: the first quote for the pool, when it was
/// fetched less than `ttl_ms` before `now_ms`.
pub open spec fn spec_lookup(
    es: Seq<CachedQuoteView>,
    ttl_ms: u64,
    dex: Seq<char>,
    pool: Seq<u8>,
    now_ms: u64,
) -> Option<PoolQuoteView> {
    match entry_for(es, dex, pool) {
        Some(e) => if age(now_ms, e.fetched_at_ms) < ttl_ms {
            Some(e.quote)
        } else {
            None
        },
        None => None,
    }
}

/// Holds of cached quotes that are not for (`dex`, `pool`).
pub open spec fn not_for(dex: Seq<char>, pool: Seq<u8>) -> spec_fn(CachedQuoteView) -> bool {
    |e: CachedQuoteView| !is_for(e, dex, pool)
}

/// The cache after storing `q` fetched at `now_ms`: any older quote for the
/// same pool is replaced.
pub open spec fn spec_store(es: Seq<CachedQuoteView>, q: PoolQuoteView, now_ms: u64) -> Seq<
    CachedQuoteView,
> {
    es.filter(not_for(q.dex_name, q.pool)).push(CachedQuoteView { quote: q, fetched_at_ms: now_ms })
}

proof fn lemma_first_for_step(es: Seq<CachedQuoteView>, dex: Seq<char>, pool: Seq<u8>, j: int)
    requires
        0 <= j <= es.len(),
        forall|k: int| 0 <= k < j ==> !is_for(#[trigger] es[k], dex, pool),
    ensures
        first_for(es, dex, pool) == match first_for(es.subrange(j, es.len() as int), dex, pool) {
            Some(i) => Some(i + j),
            None => None::<int>,
        },
    decreases j,
{
    if j > 0 {
        assert(!is_for(es[0], dex, pool));
        lemma_first_for_step(es.drop_first(), dex, pool, j - 1);
        assert(es.drop_first().subrange(j - 1, es.len() - 1) =~= es.subrange(j, es.len() as int));
    } else {
        assert(es.subrange(0, es.len() as int) =~= es);
    }
}

/// Recently fetched pool quotes, at most one per pool.
pub struct QuoteCache {
    pub entries: Vec<CachedQuote>,
    pub ttl_ms: u64,
}

impl QuoteCache {
    /// An empty cache whose quotes are served for `ttl_ms` milliseconds.
    pub fn new(ttl_ms: u64) -> (c: Self)
        ensures
            c.entries@ == Seq::<CachedQuote>::empty(),
            c.ttl_ms == ttl_ms,
    {
        QuoteCache { entries: Vec::new(), ttl_ms }
    }

    /// The cached quote of the pool `pool` on `dex_name`, if it is fresh at
    /// `now_ms`.
    pub fn lookup(&self, dex_name: &str, pool: &Address, now_ms: u64) -> (r: Option<PoolQuote>)
        ensures
            match spec_lookup(cached_view(self.entries@), self.ttl_ms, dex_name@, pool.bytes@, now_ms) {
                Some(q) => r matches Some(found) && found@ == q,
                None => r is None,
            },
    {
        let ghost cv = cached_view(self.entries@);
        let n = self.entries.len();
        let mut i: usize = 0;
        while i < n
            invariant
                i <= n,
                n == self.entries@.len(),
                cv == cached_view(self.entries@),
                forall|k: int| 0 <= k < i ==> !is_for(#[trigger] cv[k], dex_name@, pool.bytes@),
            decreases n - i,
        {
            let e = &self.entries[i];
            if str_equal(e.quote.dex_name.as_str(), dex_name) && e.quote.pool.same_as(pool) {
                proof {
                    lemma_first_for_step(cv, dex_name@, pool.bytes@, i as int);
                    assert(cv.subrange(i as int, n as int)[0] == cv[i as int]);
                }
                if now_ms.saturating_sub(e.fetched_at_ms) < self.ttl_ms {
                    return Some(e.quote.duplicate());
                } else {
                    return None;
                }
            }
            i = i + 1;
        }
        proof {
            lemma_first_for_step(cv, dex_name@, pool.bytes@, n as int);
        }
        None
    }

    /// Stores a quote fetched at `now_ms`, replacing any older one for the
    /// same pool on the same DEX.
    pub fn store(&mut self, quote: PoolQuote, now_ms: u64)
        ensures
            final(self).ttl_ms == old(self).ttl_ms,
            cached_view(final(self).entries@) == spec_store(
                cached_view(old(self).entries@),
                quote@,
                now_ms,
            ),
    {
        let ghost cv = cached_view(self.entries@);
        let ghost pred = not_for(quote@.dex_name, quote@.pool);
        let mut kept: Vec<CachedQuote> = Vec::new();
        let n = self.entries.len();
        let mut i: usize = 0;
        while i < n
            invariant
                i <= n,
                n == self.entries@.len(),
                cv == cached_view(self.entries@),
                pred == not_for(quote@.dex_name, quote@.pool),
                cached_view(kept@) == cv.take(i as int).filter(pred),
            decreases n - i,
        {
            let e = &self.entries[i];
            proof {
                assert(cv.take(i + 1) =~= cv.take(i as int).push(cv[i as int]));
                cv.take(i as int).lemma_filter_push(cv[i as int], pred);
            }
            if !(str_equal(e.quote.dex_name.as_str(), quote.dex_name.as_str())
                && e.quote.pool.same_as(&quote.pool)) {
                let ghost before = kept@;
                kept.push(CachedQuote { quote: e.quote.duplicate(), fetched_at_ms: e.fetched_at_ms });
                assert(cached_view(kept@) =~= cached_view(before).push(cv[i as int]));
            }
            i = i + 1;
        }
        assert(cv.take(n as int) =~= cv);
        let ghost before = kept@;
        kept.push(CachedQuote { quote, fetched_at_ms: now_ms });
        assert(cached_view(kept@) =~= cached_view(before).push(
            CachedQuoteView { quote: quote@, fetched_at_ms: now_ms },
        ));
        self.entries = kept;
    }
}

/// Where the first quote of a pool sits after one more quote is appended.
proof fn lemma_first_for_push(es: Seq<CachedQuoteView>, x: CachedQuoteView, dex: Seq<char>, pool: Seq<u8>)
    ensures
        first_for(es.push(x), dex, pool) == match first_for(es, dex, pool) {
            Some(i) => Some(i),
            None => if is_for(x, dex, pool) {
                Some(es.len() as int)
            } else {
                None::<int>
            },
        },
        match first_for(es, dex, pool) {
            Some(i) => 0 <= i < es.len(),
            None => true,
        },
    decreases es.len(),
{
    if es.len() > 0 {
        assert(es.push(x)[0] == es[0]);
        assert(es.push(x).drop_first() =~= es.drop_first().push(x));
        lemma_first_for_push(es.drop_first(), x, dex, pool);
    } else {
        assert(es.push(x)[0] == x);
        assert(es.push(x).drop_first() =~= Seq::<CachedQuoteView>::empty());
        assert(first_for(Seq::<CachedQuoteView>::empty(), dex, pool) is None);
    }
}

proof fn lemma_entry_for_push(es: Seq<CachedQuoteView>, x: CachedQuoteView, dex: Seq<char>, pool: Seq<u8>)
    ensures
        entry_for(es.push(x), dex, pool) == match entry_for(es, dex, pool) {
            Some(e) => Some(e),
            None => if is_for(x, dex, pool) {
                Some(x)
            } else {
                None::<CachedQuoteView>
            },
        },
{
    lemma_first_for_push(es, x, dex, pool);
}

/// Dropping the quotes of one pool does not change the quote found for
/// another.
proof fn lemma_entry_for_filter_other(
    es: Seq<CachedQuoteView>,
    q_dex: Seq<char>,
    q_pool: Seq<u8>,
    dex: Seq<char>,
    pool: Seq<u8>,
)
    requires
        !(dex == q_dex && pool == q_pool),
    ensures
        entry_for(es.filter(not_for(q_dex, q_pool)), dex, pool) == entry_for(es, dex, pool),
    decreases es.len(),
{
    let pred = not_for(q_dex, q_pool);
    if es.len() == 0 {
        reveal(Seq::filter);
    } else {
        let init = es.drop_last();
        let x = es.last();
        assert(es =~= init.push(x));
        lemma_entry_for_filter_other(init, q_dex, q_pool, dex, pool);
        init.lemma_filter_push(x, pred);
        lemma_entry_for_push(init, x, dex, pool);
        lemma_entry_for_push(init.filter(pred), x, dex, pool);
    }
}

/// After dropping the quotes of a pool, none is found for it.
proof fn lemma_entry_for_filter_same(es: Seq<CachedQuoteView>, dex: Seq<char>, pool: Seq<u8>)
    ensures
        entry_for(es.filter(not_for(dex, pool)), dex, pool) is None,
    decreases es.len(),
{
    let pred = not_for(dex, pool);
    if es.len() == 0 {
        reveal(Seq::filter);
    } else {
        let init = es.drop_last();
        let x = es.last();
        assert(es =~= init.push(x));
        lemma_entry_for_filter_same(init, dex, pool);
        init.lemma_filter_push(x, pred);
        lemma_entry_for_push(init.filter(pred), x, dex, pool);
    }
}

/// A quote just stored is what a lookup of its pool gives back until the
/// time-to-live runs out, and nothing afterwards.
pub proof fn lemma_lookup_after_store(
    es: Seq<CachedQuoteView>,
    ttl_ms: u64,
    q: PoolQuoteView,
    stored_at: u64,
    now_ms: u64,
)
    requires
        stored_at <= now_ms,
    ensures
        spec_lookup(spec_store(es, q, stored_at), ttl_ms, q.dex_name, q.pool, now_ms) == if now_ms
            - stored_at < ttl_ms {
            Some(q)
        } else {
            None::<PoolQuoteView>
        },
{
    let kept = es.filter(not_for(q.dex_name, q.pool));
    let fresh = CachedQuoteView { quote: q, fetched_at_ms: stored_at };
    lemma_entry_for_filter_same(es, q.dex_name, q.pool);
    lemma_entry_for_push(kept, fresh, q.dex_name, q.pool);
}

/// Storing a quote leaves what a lookup gives for every other pool as it was.
pub proof fn lemma_store_keeps_other_pools(
    es: Seq<CachedQuoteView>,
    ttl_ms: u64,
    q: PoolQuoteView,
    stored_at: u64,
    dex: Seq<char>,
    pool: Seq<u8>,
    now_ms: u64,
)
    requires
        !(dex == q.dex_name && pool == q.pool),
    ensures
        spec_lookup(spec_store(es, q, stored_at), ttl_ms, dex, pool, now_ms) == spec_lookup(
            es,
            ttl_ms,
            dex,
            pool,
            now_ms,
        ),
{
    let kept = es.filter(not_for(q.dex_name, q.pool));
    let fresh = CachedQuoteView { quote: q, fetched_at_ms: stored_at };
    lemma_entry_for_filter_other(es, q.dex_name, q.pool, dex, pool);
    lemma_entry_for_push(kept, fresh, dex, pool);
}


/// The router lookup finds a router of that name when any pair lists one,
/// and what it finds is listed under that name by some pair.
pub proof fn lemma_router_lookup_sound(pairs: Seq<TrackedPairView>, dex: Seq<char>)
    ensures
        spec_router_for_dex(pairs, dex) matches Some(r) ==> exists|i: int, j: int|
            0 <= i < pairs.len() && 0 <= j < pairs[i].routers.len() && #[trigger] pairs[i].routers[j]
                == (dex, r),
        spec_router_for_dex(pairs, dex) is None ==> forall|i: int, j: int|
            0 <= i < pairs.len() && 0 <= j < pairs[i].routers.len() ==> (
            #[trigger] pairs[i].routers[j]).0 != dex,
    decreases pairs.len(),
{
    if pairs.len() > 0 {
        lemma_first_router_sound(pairs[0].routers, dex);
        lemma_router_lookup_sound(pairs.drop_first(), dex);
        let rest = pairs.drop_first();
        if first_router_named(pairs[0].routers, dex) is None {
            if let Some(r) = spec_router_for_dex(rest, dex) {
                let (i, j) = choose|i: int, j: int|
                    0 <= i < rest.len() && 0 <= j < rest[i].routers.len() && #[trigger] rest[i].routers[j]
                        == (dex, r);
                assert(pairs[i + 1] == rest[i]);
                assert(pairs[i + 1].routers[j] == (dex, r));
            } else {
                assert forall|i: int, j: int|
                    0 <= i < pairs.len() && 0 <= j < pairs[i].routers.len() implies (
                    #[trigger] pairs[i].routers[j]).0 != dex by {
                    if i > 0 {
                        assert(pairs[i] == rest[i - 1]);
                    }
                }
            }
        } else {
            let r = first_router_named(pairs[0].routers, dex)->0;
            let j = choose|j: int|
                0 <= j < pairs[0].routers.len() && #[trigger] pairs[0].routers[j] == (dex, r);
            assert(pairs[0].routers[j] == (dex, r));
        }
    }
}

proof fn lemma_first_router_sound(routers: Seq<(Seq<char>, Seq<u8>)>, dex: Seq<char>)
    ensures
        first_router_named(routers, dex) matches Some(r) ==> exists|j: int|
            0 <= j < routers.len() && #[trigger] routers[j] == (dex, r),
        first_router_named(routers, dex) is None ==> forall|j: int|
            0 <= j < routers.len() ==> (#[trigger] routers[j]).0 != dex,
    decreases routers.len(),
{
    if routers.len() > 0 {
        lemma_first_router_sound(routers.drop_first(), dex);
        let rest = routers.drop_first();
        if routers[0].0 == dex {
            assert(routers[0] == (dex, routers[0].1));
        } else if let Some(r) = first_router_named(rest, dex) {
            let j = choose|j: int| 0 <= j < rest.len() && #[trigger] rest[j] == (dex, r);
            assert(routers[j + 1] == rest[j]);
        } else {
            assert forall|j: int| 0 <= j < routers.len() implies (#[trigger] routers[j]).0 != dex by {
                if j > 0 {
                    assert(routers[j] == rest[j - 1]);
                }
            }
        }
    }
}

} // verus!
