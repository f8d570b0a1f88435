//! The DEXes and token pairs the bot knows, and the resolution of their pools.
//!
//! Pool lookups are calls to each DEX factory's `getPair`; the application
//! makes them and hands the answers to [`resolve_all_pools`], which decides
//! which pairs can be scanned.

use crate::address::Address;
use crate::scanner::{named_views, pairs_view, TrackedPair, TrackedPairView};
use vstd::prelude::*;

verus! {

/// The chain id of the Amoy testnet; any other id selects Polygon mainnet.
pub const AMOY_CHAIN_ID: u64 = 80002;

/// A DEX: its name, factory and router.
#[derive(Clone, Copy)]
pub struct DexDef {
    pub name: &'static str,
    pub factory: Address,
    pub router: Address,
}

/// A DEX as a value.
pub struct DexDefView {
    pub name: Seq<char>,
    pub factory: Seq<u8>,
    pub router: Seq<u8>,
}

impl DexDef {
    pub open spec fn view(&self) -> DexDefView {
        DexDefView { name: self.name@, factory: self.factory.bytes@, router: self.router.bytes@ }
    }
}

/// A token pair to trade.
pub struct TokenPairDef {
    pub label: String,
    pub token0: Address,
    pub token1: Address,
}

/// A token pair as a value.
pub struct TokenPairView {
    pub label: Seq<char>,
    pub token0: Seq<u8>,
    pub token1: Seq<u8>,
}

impl TokenPairDef {
    pub open spec fn view(&self) -> TokenPairView {
        TokenPairView { label: self.label@, token0: self.token0.bytes@, token1: self.token1.bytes@ }
    }
}

/// The views of a list of DEXes.
pub open spec fn dexes_view(d: Seq<DexDef>) -> Seq<DexDefView> {
    d.map_values(|x: DexDef| x@)
}

/// The views of a list of token pairs.
pub open spec fn token_pairs_view(p: Seq<TokenPairDef>) -> Seq<TokenPairView> {
    p.map_values(|x: TokenPairDef| x@)
}

/// QuickSwap's factory on Amoy, also listed as QuickSwap's router on Polygon: `0xa5E0829CaCEd8fFDD4De3c43696c57F7D7A678ff`.
pub open spec fn quickswap_factory_amoy() -> Seq<u8> {
    seq![0xa5, 0xe0, 0x82, 0x9c, 0xac, 0xed, 0x8f, 0xfd, 0xd4, 0xde, 0x3c, 0x43, 0x69, 0x6c, 0x57, 0xf7, 0xd7, 0xa6, 0x78, 0xff]
}

fn quickswap_factory_amoy_address() -> (a: Address)
    ensures
        a.bytes@ == quickswap_factory_amoy(),
{
    let a = Address { bytes: [0xa5, 0xe0, 0x82, 0x9c, 0xac, 0xed, 0x8f, 0xfd, 0xd4, 0xde, 0x3c, 0x43, 0x69, 0x6c, 0x57, 0xf7, 0xd7, 0xa6, 0x78, 0xff] };
    assert(a.bytes@ =~= quickswap_factory_amoy());
    a
}

/// The router used for both DEXes on Amoy and for SushiSwap on Polygon: `0x1b02dA8Cb0d097eB8D57A175b88c7D8b47997506`.
pub open spec fn shared_router() -> Seq<u8> {
    seq![0x1b, 0x02, 0xda, 0x8c, 0xb0, 0xd0, 0x97, 0xeb, 0x8d, 0x57, 0xa1, 0x75, 0xb8, 0x8c, 0x7d, 0x8b, 0x47, 0x99, 0x75, 0x06]
}

fn shared_router_address() -> (a: Address)
    ensures
        a.bytes@ == shared_router(),
{
    let a = Address { bytes: [0x1b, 0x02, 0xda, 0x8c, 0xb0, 0xd0, 0x97, 0xeb, 0x8d, 0x57, 0xa1, 0x75, 0xb8, 0x8c, 0x7d, 0x8b, 0x47, 0x99, 0x75, 0x06] };
    assert(a.bytes@ =~= shared_router());
    a
}

/// SushiSwap's factory, on both networks: `0xc35DADB65012eC5796536bD9864eD8773aBc74C4`.
pub open spec fn sushiswap_factory() -> Seq<u8> {
    seq![0xc3, 0x5d, 0xad, 0xb6, 0x50, 0x12, 0xec, 0x57, 0x96, 0x53, 0x6b, 0xd9, 0x86, 0x4e, 0xd8, 0x77, 0x3a, 0xbc, 0x74, 0xc4]
}

fn sushiswap_factory_address() -> (a: Address)
    ensures
        a.bytes@ == sushiswap_factory(),
{
    let a = Address { bytes: [0xc3, 0x5d, 0xad, 0xb6, 0x50, 0x12, 0xec, 0x57, 0x96, 0x53, 0x6b, 0xd9, 0x86, 0x4e, 0xd8, 0x77, 0x3a, 0xbc, 0x74, 0xc4] };
    assert(a.bytes@ =~= sushiswap_factory());
    a
}

/// QuickSwap's factory on Polygon: `0x5757371414417b8C6CAad45bAeF941aBc7d3Ab32`.
pub open spec fn quickswap_factory_polygon() -> Seq<u8> {
    seq![0x57, 0x57, 0x37, 0x14, 0x14, 0x41, 0x7b, 0x8c, 0x6c, 0xaa, 0xd4, 0x5b, 0xae, 0xf9, 0x41, 0xab, 0xc7, 0xd3, 0xab, 0x32]
}

fn quickswap_factory_polygon_address() -> (a: Address)
    ensures
        a.bytes@ == quickswap_factory_polygon(),
{
    let a = Address { bytes: [0x57, 0x57, 0x37, 0x14, 0x14, 0x41, 0x7b, 0x8c, 0x6c, 0xaa, 0xd4, 0x5b, 0xae, 0xf9, 0x41, 0xab, 0xc7, 0xd3, 0xab, 0x32] };
    assert(a.bytes@ =~= quickswap_factory_polygon());
    a
}

/// USDC on Amoy: `0x41E94Eb019C0762f9Bfcf9Fb1E58725BfB0e7582`.
pub open spec fn usdc_amoy() -> Seq<u8> {
    seq![0x41, 0xe9, 0x4e, 0xb0, 0x19, 0xc0, 0x76, 0x2f, 0x9b, 0xfc, 0xf9, 0xfb, 0x1e, 0x58, 0x72, 0x5b, 0xfb, 0x0e, 0x75, 0x82]
}

fn usdc_amoy_address() -> (a: Address)
    ensures
        a.bytes@ == usdc_amoy(),
{
    let a = Address { bytes: [0x41, 0xe9, 0x4e, 0xb0, 0x19, 0xc0, 0x76, 0x2f, 0x9b, 0xfc, 0xf9, 0xfb, 0x1e, 0x58, 0x72, 0x5b, 0xfb, 0x0e, 0x75, 0x82] };
    assert(a.bytes@ =~= usdc_amoy());
    a
}

/// WMATIC on Amoy: `0x360ad4f9a9A8EFe9A8DCB5f461c4Cc1047E1Dcf9`.
pub open spec fn wmatic_amoy() -> Seq<u8> {
    seq![0x36, 0x0a, 0xd4, 0xf9, 0xa9, 0xa8, 0xef, 0xe9, 0xa8, 0xdc, 0xb5, 0xf4, 0x61, 0xc4, 0xcc, 0x10, 0x47, 0xe1, 0xdc, 0xf9]
}

fn wmatic_amoy_address() -> (a: Address)
    ensures
        a.bytes@ == wmatic_amoy(),
{
    let a = Address { bytes: [0x36, 0x0a, 0xd4, 0xf9, 0xa9, 0xa8, 0xef, 0xe9, 0xa8, 0xdc, 0xb5, 0xf4, 0x61, 0xc4, 0xcc, 0x10, 0x47, 0xe1, 0xdc, 0xf9] };
    assert(a.bytes@ =~= wmatic_amoy());
    a
}

/// USDC on Polygon: `0x2791Bca1f2de4661ED88A30C99A7a9449Aa84174`.
pub open spec fn usdc_polygon() -> Seq<u8> {
    seq![0x27, 0x91, 0xbc, 0xa1, 0xf2, 0xde, 0x46, 0x61, 0xed, 0x88, 0xa3, 0x0c, 0x99, 0xa7, 0xa9, 0x44, 0x9a, 0xa8, 0x41, 0x74]
}

fn usdc_polygon_address() -> (a: Address)
    ensures
        a.bytes@ == usdc_polygon(),
{
    let a = Address { bytes: [0x27, 0x91, 0xbc, 0xa1, 0xf2, 0xde, 0x46, 0x61, 0xed, 0x88, 0xa3, 0x0c, 0x99, 0xa7, 0xa9, 0x44, 0x9a, 0xa8, 0x41, 0x74] };
    assert(a.bytes@ =~= usdc_polygon());
    a
}

/// WETH on Polygon: `0x7ceB23fD6bC0adD59E62ac25578270cFf1b9f619`.
pub open spec fn weth_polygon() -> Seq<u8> {
    seq![0x7c, 0xeb, 0x23, 0xfd, 0x6b, 0xc0, 0xad, 0xd5, 0x9e, 0x62, 0xac, 0x25, 0x57, 0x82, 0x70, 0xcf, 0xf1, 0xb9, 0xf6, 0x19]
}

fn weth_polygon_address() -> (a: Address)
    ensures
        a.bytes@ == weth_polygon(),
{
    let a = Address { bytes: [0x7c, 0xeb, 0x23, 0xfd, 0x6b, 0xc0, 0xad, 0xd5, 0x9e, 0x62, 0xac, 0x25, 0x57, 0x82, 0x70, 0xcf, 0xf1, 0xb9, 0xf6, 0x19] };
    assert(a.bytes@ =~= weth_polygon());
    a
}

/// The DEXes of a chain.
pub open spec fn spec_known_dexes(chain_id: u64) -> Seq<DexDefView> {
    if chain_id == AMOY_CHAIN_ID {
        seq![
            DexDefView { name: "quickswap"@, factory: quickswap_factory_amoy(), router: shared_router() },
            DexDefView { name: "sushiswap"@, factory: sushiswap_factory(), router: shared_router() },
        ]
    } else {
        seq![
            DexDefView {
                name: "quickswap"@,
                factory: quickswap_factory_polygon(),
                router: quickswap_factory_amoy(),
            },
            DexDefView { name: "sushiswap"@, factory: sushiswap_factory(), router: shared_router() },
        ]
    }
}

/// The token pairs of a chain.
pub open spec fn spec_token_pairs(chain_id: u64) -> Seq<TokenPairView> {
    if chain_id == AMOY_CHAIN_ID {
        seq![TokenPairView { label: "USDC/WMATIC"@, token0: usdc_amoy(), token1: wmatic_amoy() }]
    } else {
        seq![TokenPairView { label: "USDC/WETH"@, token0: usdc_polygon(), token1: weth_polygon() }]
    }
}

/// The DEXes the bot trades on, for the chain `chain_id`.
pub fn known_dexes(chain_id: u64) -> (v: Vec<DexDef>)
    ensures
        dexes_view(v@) == spec_known_dexes(chain_id),
{
    let mut v: Vec<DexDef> = Vec::new();
    if chain_id == AMOY_CHAIN_ID {
        v.push(
            DexDef {
                name: "quickswap",
                factory: quickswap_factory_amoy_address(),
                router: shared_router_address(),
            },
        );
        v.push(
            DexDef {
                name: "sushiswap",
                factory: sushiswap_factory_address(),
                router: shared_router_address(),
            },
        );
    } else {
        v.push(
            DexDef {
                name: "quickswap",
                factory: quickswap_factory_polygon_address(),
                router: quickswap_factory_amoy_address(),
            },
        );
        v.push(
            DexDef {
                name: "sushiswap",
                factory: sushiswap_factory_address(),
                router: shared_router_address(),
            },
        );
    }
    assert(dexes_view(v@) =~= spec_known_dexes(chain_id));
    v
}

/// The token pairs the bot trades, for the chain `chain_id`.
pub fn token_pairs(chain_id: u64) -> (v: Vec<TokenPairDef>)
    ensures
        token_pairs_view(v@) == spec_token_pairs(chain_id),
{
    let mut v: Vec<TokenPairDef> = Vec::new();
    if chain_id == AMOY_CHAIN_ID {
        v.push(
            TokenPairDef {
                label: "USDC/WMATIC".to_owned(),
                token0: usdc_amoy_address(),
                token1: wmatic_amoy_address(),
            },
        );
    } else {
        v.push(
            TokenPairDef {
                label: "USDC/WETH".to_owned(),
                token0: usdc_polygon_address(),
                token1: weth_polygon_address(),
            },
        );
    }
    assert(token_pairs_view(v@) =~= spec_token_pairs(chain_id));
    v
}

/// A pool lookup as a value: `None` when the call failed, else the address
/// the factory answered (zero when it has no pool for the pair).
pub open spec fn lookup_view(o: Option<Address>) -> Option<Seq<u8>> {
    match o {
        Some(a) => Some(a.bytes@),
        None => None,
    }
}

/// The views of one pair's lookups, one per DEX.
pub open spec fn lookup_row_view(row: Seq<Option<Address>>) -> Seq<Option<Seq<u8>>> {
    row.map_values(|o: Option<Address>| lookup_view(o))
}

/// The views of all pairs' lookups.
pub open spec fn lookups_view(rows: Seq<Vec<Option<Address>>>) -> Seq<Seq<Option<Seq<u8>>>> {
    rows.map_values(|r: Vec<Option<Address>>| lookup_row_view(r@))
}

/// A lookup found a pool: the call succeeded with a non-zero address.
pub open spec fn found_pool(o: Option<Seq<u8>>) -> bool {
    o matches Some(a) && a != Address::spec_zero()
}

/// The (DEX name, pool) pairs found among the first `k` DEXes, in DEX order.
pub open spec fn pools_found(dexes: Seq<DexDefView>, row: Seq<Option<Seq<u8>>>, k: nat) -> Seq<
    (Seq<char>, Seq<u8>),
>
    decreases k,
{
    if k == 0 {
        Seq::empty()
    } else {
        let prev = pools_found(dexes, row, (k - 1) as nat);
        if found_pool(row[k - 1]) {
            prev.push((dexes[k - 1].name, row[k - 1]->0))
        } else {
            prev
        }
    }
}

/// The (DEX name, router) pairs of the DEXes among the first `k` that have a
/// pool, in DEX order.
pub open spec fn routers_found(dexes: Seq<DexDefView>, row: Seq<Option<Seq<u8>>>, k: nat) -> Seq<
    (Seq<char>, Seq<u8>),
>
    decreases k,
{
    if k == 0 {
        Seq::empty()
    } else {
        let prev = routers_found(dexes, row, (k - 1) as nat);
        if found_pool(row[k - 1]) {
            prev.push((dexes[k - 1].name, dexes[k - 1].router))
        } else {
            prev
        }
    }
}

/// A pair is tracked when pools on at least two DEXes were found: a spread
/// needs two prices.
pub open spec fn spec_resolve_pair(
    dexes: Seq<DexDefView>,
    pair: TokenPairView,
    row: Seq<Option<Seq<u8>>>,
) -> Option<TrackedPairView> {
    let pools = pools_found(dexes, row, dexes.len());
    if pools.len() >= 2 {
        Some(
            TrackedPairView {
                label: pair.label,
                pools: pools,
                token0: pair.token0,
                token1: pair.token1,
                routers: routers_found(dexes, row, dexes.len()),
            },
        )
    } else {
        None
    }
}

/// The tracked pairs among the first `k` token pairs, in order.
pub open spec fn spec_resolve_all(
    dexes: Seq<DexDefView>,
    pairs: Seq<TokenPairView>,
    rows: Seq<Seq<Option<Seq<u8>>>>,
    k: nat,
) -> Seq<TrackedPairView>
    decreases k,
{
    if k == 0 {
        Seq::empty()
    } else {
        let prev = spec_resolve_all(dexes, pairs, rows, (k - 1) as nat);
        match spec_resolve_pair(dexes, pairs[k - 1], rows[k - 1]) {
            Some(t) => prev.push(t),
            None => prev,
        }
    }
}

/// Builds the tracked pair for `pair` from its lookups on each DEX (`row[d]`
/// answers DEX `dexes[d]`), or `None` when fewer than two DEXes have a pool.
pub fn resolve_pair(dexes: &Vec<DexDef>, pair: &TokenPairDef, row: &Vec<Option<Address>>) -> (r:
    Option<TrackedPair>)
    requires
        row@.len() == dexes@.len(),
    ensures
        match spec_resolve_pair(dexes_view(dexes@), pair@, lookup_row_view(row@)) {
            Some(t) => r matches Some(p) && p@ == t,
            None => r is None,
        },
{
    let ghost dv = dexes_view(dexes@);
    let ghost rv = lookup_row_view(row@);
    let mut pools: Vec<(String, Address)> = Vec::new();
    let mut routers: Vec<(String, Address)> = Vec::new();
    let n = dexes.len();
    let mut d: usize = 0;
    while d < n
        invariant
            d <= n,
            n == dexes@.len(),
            row@.len() == n,
            dv == dexes_view(dexes@),
            rv == lookup_row_view(row@),
            named_views(pools@) == pools_found(dv, rv, d as nat),
            named_views(routers@) == routers_found(dv, rv, d as nat),
        decreases n - d,
    {
        let dex = dexes[d];
        match row[d] {
            Some(a) => {
                if !a.is_zero() {
                    let ghost before_pools = pools@;
                    let ghost before_routers = routers@;
                    let pool_name = dex.name.to_owned();
                    let router_name = dex.name.to_owned();
                    pools.push((pool_name, a));
                    routers.push((router_name, dex.router));
                    assert(named_views(pools@) =~= named_views(before_pools).push(
                        (dex.name@, a.bytes@),
                    ));
                    assert(named_views(pools@) =~= pools_found(dv, rv, (d + 1) as nat));
                    assert(named_views(routers@) =~= routers_found(dv, rv, (d + 1) as nat));
                }
            },
            None => {},
        }
        d = d + 1;
    }
    if pools.len() >= 2 {
        let p = TrackedPair {
            label: pair.label.clone(),
            pools,
            token0: pair.token0,
            token1: pair.token1,
            routers,
        };
        Some(p)
    } else {
        None
    }
}

/// The pairs that can be scanned, in the order of `pairs`: `lookups[i][d]`
/// is what DEX `dexes[d]`'s factory answered for pair `pairs[i]` (`None`
/// when the call failed).
pub fn resolve_all_pools(
    dexes: &Vec<DexDef>,
    pairs: &Vec<TokenPairDef>,
    lookups: &Vec<Vec<Option<Address>>>,
) -> (r: Vec<TrackedPair>)
    requires
        lookups@.len() == pairs@.len(),
        forall|i: int| 0 <= i < lookups@.len() ==> (#[trigger] lookups@[i])@.len() == dexes@.len(),
    ensures
        pairs_view(r@) == spec_resolve_all(
            dexes_view(dexes@),
            token_pairs_view(pairs@),
            lookups_view(lookups@),
            pairs@.len() as nat,
        ),
{
    let ghost dv = dexes_view(dexes@);
    let ghost pv = token_pairs_view(pairs@);
    let ghost lv = lookups_view(lookups@);
    let mut resolved: Vec<TrackedPair> = Vec::new();
    let n = pairs.len();
    let mut i: usize = 0;
    while i < n
        invariant
            i <= n,
            n == pairs@.len(),
            lookups@.len() == n,
            forall|k: int| 0 <= k < lookups@.len() ==> (#[trigger] lookups@[k])@.len() == dexes@.len(),
            dv == dexes_view(dexes@),
            pv == token_pairs_view(pairs@),
            lv == lookups_view(lookups@),
            pairs_view(resolved@) == spec_resolve_all(dv, pv, lv, i as nat),
        decreases n - i,
    {
        let ghost before = resolved@;
        match resolve_pair(dexes, &pairs[i], &lookups[i]) {
            Some(t) => {
                resolved.push(t);
                assert(pairs_view(resolved@) =~= pairs_view(before).push(t@));
            },
            None => {},
        }
        assert(pairs_view(resolved@) =~= spec_resolve_all(dv, pv, lv, (i + 1) as nat));
        i = i + 1;
    }
    resolved
}

/// A tracked pair can be scanned: pools on two DEXes or more, none of them
/// the zero address, each with the router of the same DEX beside it.
pub open spec fn scannable(t: TrackedPairView) -> bool {
    &&& t.pools.len() >= 2
    &&& t.routers.len() == t.pools.len()
    &&& forall|j: int|
        0 <= j < t.pools.len() ==> (#[trigger] t.pools[j]).1 != Address::spec_zero()
            && t.pools[j].0 == t.routers[j].0
}

proof fn lemma_found_aligned(dexes: Seq<DexDefView>, row: Seq<Option<Seq<u8>>>, k: nat)
    ensures
        pools_found(dexes, row, k).len() == routers_found(dexes, row, k).len(),
        pools_found(dexes, row, k).len() <= k,
        forall|j: int|
            0 <= j < pools_found(dexes, row, k).len() ==> (#[trigger] pools_found(dexes, row, k)[j]).1
                != Address::spec_zero() && pools_found(dexes, row, k)[j].0 == routers_found(
                dexes,
                row,
                k,
            )[j].0,
    decreases k,
{
    if k > 0 {
        lemma_found_aligned(dexes, row, (k - 1) as nat);
    }
}

/// Every pair that resolution keeps can be scanned, and resolution keeps no
/// more pairs than it was given.
pub proof fn lemma_resolved_pairs_scannable(
    dexes: Seq<DexDefView>,
    pairs: Seq<TokenPairView>,
    rows: Seq<Seq<Option<Seq<u8>>>>,
    k: nat,
)
    ensures
        spec_resolve_all(dexes, pairs, rows, k).len() <= k,
        forall|i: int|
            0 <= i < spec_resolve_all(dexes, pairs, rows, k).len() ==> scannable(
                #[trigger] spec_resolve_all(dexes, pairs, rows, k)[i],
            ),
    decreases k,
{
    if k > 0 {
        lemma_resolved_pairs_scannable(dexes, pairs, rows, (k - 1) as nat);
        lemma_found_aligned(dexes, rows[k - 1], dexes.len());
    }
}

/// A pair is kept exactly when at least two of its lookups found a pool.
pub proof fn lemma_pair_kept_iff_two_pools(
    dexes: Seq<DexDefView>,
    pair: TokenPairView,
    row: Seq<Option<Seq<u8>>>,
)
    ensures
        spec_resolve_pair(dexes, pair, row) is Some <==> pools_found(dexes, row, dexes.len()).len()
            >= 2,
        spec_resolve_pair(dexes, pair, row) matches Some(t) ==> t.label == pair.label && t.token0
            == pair.token0 && t.token1 == pair.token1,
{
}


/// Every pool found among the first `k` DEXes comes from one of them, in DEX
/// order: its lookup answered that non-zero pool, the pool is listed under
/// that DEX's name, and the router kept beside it is that same DEX's router.
pub proof fn lemma_found_entries_from_their_dex(
    dexes: Seq<DexDefView>,
    row: Seq<Option<Seq<u8>>>,
    k: nat,
)
    requires
        k <= dexes.len(),
        k <= row.len(),
    ensures
        forall|j: int|
            #![trigger pools_found(dexes, row, k)[j]]
            0 <= j < pools_found(dexes, row, k).len() ==> exists|d: int|
                #![trigger dexes[d]]
                0 <= d < k && found_pool(row[d]) && row[d] == Some(pools_found(dexes, row, k)[j].1)
                    && pools_found(dexes, row, k)[j].0 == dexes[d].name && routers_found(
                    dexes,
                    row,
                    k,
                )[j] == (dexes[d].name, dexes[d].router),
    decreases k,
{
    lemma_found_aligned(dexes, row, k);
    if k > 0 {
        lemma_found_entries_from_their_dex(dexes, row, (k - 1) as nat);
        lemma_found_aligned(dexes, row, (k - 1) as nat);
        let pools = pools_found(dexes, row, k);
        let routers = routers_found(dexes, row, k);
        let prev_pools = pools_found(dexes, row, (k - 1) as nat);
        let prev_routers = routers_found(dexes, row, (k - 1) as nat);
        assert forall|j: int| #![trigger pools[j]] 0 <= j < pools.len() implies exists|d: int|
            #![trigger dexes[d]]
            0 <= d < k && found_pool(row[d]) && row[d] == Some(pools[j].1) && pools[j].0
                == dexes[d].name && routers[j] == (dexes[d].name, dexes[d].router) by {
            if j < prev_pools.len() {
                assert(pools[j] == prev_pools[j]);
                assert(routers[j] == prev_routers[j]);
                let d = choose|d: int|
                    #![trigger dexes[d]]
                    0 <= d < k - 1 && found_pool(row[d]) && row[d] == Some(prev_pools[j].1)
                        && prev_pools[j].0 == dexes[d].name && prev_routers[j] == (
                        dexes[d].name,
                        dexes[d].router,
                    );
                assert(dexes[d] == dexes[d]);
            } else {
                let d = k - 1;
                assert(dexes[d] == dexes[d]);
            }
        }
    }
}

/// In every tracked pair that resolution keeps, each pool is the answer of a
/// DEX's factory, listed under that DEX's name, with that same DEX's router
/// beside it.
pub proof fn lemma_resolved_routers_match_pools(
    dexes: Seq<DexDefView>,
    pair: TokenPairView,
    row: Seq<Option<Seq<u8>>>,
    j: int,
)
    requires
        row.len() == dexes.len(),
        spec_resolve_pair(dexes, pair, row) is Some,
        0 <= j < spec_resolve_pair(dexes, pair, row)->0.pools.len(),
    ensures
        exists|d: int|
            #![trigger dexes[d]]
            0 <= d < dexes.len() && row[d] == Some(spec_resolve_pair(dexes, pair, row)->0.pools[j].1)
                && spec_resolve_pair(dexes, pair, row)->0.pools[j].1 != Address::spec_zero()
                && spec_resolve_pair(dexes, pair, row)->0.pools[j].0 == dexes[d].name
                && spec_resolve_pair(dexes, pair, row)->0.routers[j] == (
                dexes[d].name,
                dexes[d].router,
            ),
{
    lemma_found_entries_from_their_dex(dexes, row, dexes.len());
    let t = spec_resolve_pair(dexes, pair, row)->0;
    let pools = pools_found(dexes, row, dexes.len());
    let routers = routers_found(dexes, row, dexes.len());
    assert(t.pools == pools && t.routers == routers);
    assert(pools[j] == t.pools[j]);
    let d = choose|d: int|
        #![trigger dexes[d]]
        0 <= d < dexes.len() && found_pool(row[d]) && row[d] == Some(pools[j].1) && pools[j].0
            == dexes[d].name && routers[j] == (dexes[d].name, dexes[d].router);
    assert(dexes[d] == dexes[d]);
}


/// No pool that a lookup found is lost: every DEX among the first `k` whose
/// lookup answered a non-zero pool appears, with that pool and with its own
/// router beside it.
pub proof fn lemma_found_pools_complete(
    dexes: Seq<DexDefView>,
    row: Seq<Option<Seq<u8>>>,
    k: nat,
    d: int,
)
    requires
        0 <= d < k,
        found_pool(row[d]),
    ensures
        exists|j: int|
            0 <= j < pools_found(dexes, row, k).len() && #[trigger] pools_found(dexes, row, k)[j] == (
                dexes[d].name,
                row[d]->0,
            ) && routers_found(dexes, row, k)[j] == (dexes[d].name, dexes[d].router),
    decreases k,
{
    lemma_found_aligned(dexes, row, k);
    lemma_found_aligned(dexes, row, (k - 1) as nat);
    let pools = pools_found(dexes, row, k);
    if d < k - 1 {
        lemma_found_pools_complete(dexes, row, (k - 1) as nat, d);
        let prev = pools_found(dexes, row, (k - 1) as nat);
        let j = choose|j: int|
            0 <= j < prev.len() && #[trigger] prev[j] == (dexes[d].name, row[d]->0) && routers_found(
                dexes,
                row,
                (k - 1) as nat,
            )[j] == (dexes[d].name, dexes[d].router);
        assert(pools[j] == prev[j]);
    } else {
        let j = pools.len() - 1;
        assert(pools[j] == (dexes[d].name, row[d]->0));
    }
}

} // verus!
