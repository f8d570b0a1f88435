use sharklet::address::{parse_address, Address};
use sharklet::dex_registry::{known_dexes, resolve_all_pools, resolve_pair, token_pairs, AMOY_CHAIN_ID, DexDef, TokenPairDef};
use sharklet::price_oracle::{
    answer_is_stale, cache_is_fresh, feed_for_chain, matic_usd_feed_address, AddressesConfig,
    NetworkConfig, PRICE_CACHE_TTL_SECS,
};
use sharklet::rpc_manager::{
    consensus_block_number, consensus_possible, is_benched, next_consecutive_failures,
};
use sharklet::scanner::{find_pair, probe_amount, round_trip_profitable, router_for_dex, TrackedPair};

fn addr(s: &str) -> Address {
    parse_address(s).expect("valid address")
}

#[test]
fn amoy_dexes() {
    let d = known_dexes(AMOY_CHAIN_ID);
    assert_eq!(d.len(), 2);
    assert_eq!(d[0].name, "quickswap");
    assert_eq!(d[0].factory.bytes, addr("0xa5E0829CaCEd8fFDD4De3c43696c57F7D7A678ff").bytes);
    assert_eq!(d[0].router.bytes, addr("0x1b02dA8Cb0d097eB8D57A175b88c7D8b47997506").bytes);
    assert_eq!(d[1].name, "sushiswap");
    assert_eq!(d[1].factory.bytes, addr("0xc35DADB65012eC5796536bD9864eD8773aBc74C4").bytes);
    assert_eq!(d[1].router.bytes, addr("0x1b02dA8Cb0d097eB8D57A175b88c7D8b47997506").bytes);
}

#[test]
fn polygon_dexes() {
    let d = known_dexes(137);
    assert_eq!(d.len(), 2);
    assert_eq!(d[0].name, "quickswap");
    assert_eq!(d[0].factory.bytes, addr("0x5757371414417b8C6CAad45bAeF941aBc7d3Ab32").bytes);
    assert_eq!(d[0].router.bytes, addr("0xa5E0829CaCEd8fFDD4De3c43696c57F7D7A678ff").bytes);
    assert_eq!(d[1].name, "sushiswap");
    assert_eq!(d[1].factory.bytes, addr("0xc35DADB65012eC5796536bD9864eD8773aBc74C4").bytes);
    assert_eq!(d[1].router.bytes, addr("0x1b02dA8Cb0d097eB8D57A175b88c7D8b47997506").bytes);
}

#[test]
fn pairs_per_chain() {
    let a = token_pairs(AMOY_CHAIN_ID);
    assert_eq!(a.len(), 1);
    assert_eq!(a[0].label, "USDC/WMATIC");
    assert_eq!(a[0].token0.bytes, addr("0x41E94Eb019C0762f9Bfcf9Fb1E58725BfB0e7582").bytes);
    assert_eq!(a[0].token1.bytes, addr("0x360ad4f9a9A8EFe9A8DCB5f461c4Cc1047E1Dcf9").bytes);
    let p = token_pairs(8453);
    assert_eq!(p[0].label, "USDC/WETH");
    assert_eq!(p[0].token0.bytes, addr("0x2791Bca1f2de4661ED88A30C99A7a9449Aa84174").bytes);
    assert_eq!(p[0].token1.bytes, addr("0x7ceB23fD6bC0adD59E62ac25578270cFf1b9f619").bytes);
}

fn pool(last: u8) -> Address {
    let mut b = [0u8; 20];
    b[19] = last;
    Address { bytes: b }
}

#[test]
fn resolution_needs_two_pools() {
    let dexes = known_dexes(AMOY_CHAIN_ID);
    let pairs = token_pairs(AMOY_CHAIN_ID);
    // both DEXes list the pair
    let both = vec![vec![Some(pool(1)), Some(pool(2))]];
    let r = resolve_all_pools(&dexes, &pairs, &both);
    assert_eq!(r.len(), 1);
    assert_eq!(r[0].label, "USDC/WMATIC");
    assert_eq!(r[0].pools.len(), 2);
    assert_eq!(r[0].pools[0].0, "quickswap");
    assert_eq!(r[0].pools[0].1.bytes, pool(1).bytes);
    assert_eq!(r[0].pools[1].0, "sushiswap");
    assert_eq!(r[0].routers[1].0, "sushiswap");
    assert_eq!(r[0].routers[1].1.bytes, dexes[1].router.bytes);
    // a zero answer means no pool; a failed call is skipped too
    assert!(resolve_all_pools(&dexes, &pairs, &vec![vec![Some(Address::zero()), Some(pool(2))]]).is_empty());
    assert!(resolve_all_pools(&dexes, &pairs, &vec![vec![None, Some(pool(2))]]).is_empty());
}

#[test]
fn resolution_keeps_pair_order() {
    let mk = |name: &'static str, last: u8| DexDef { name, factory: pool(last), router: pool(last + 100) };
    let dexes = vec![mk("a", 1), mk("b", 2), mk("c", 3)];
    let pairs = vec![
        TokenPairDef { label: "X/Y".to_string(), token0: pool(10), token1: pool(11) },
        TokenPairDef { label: "Z/W".to_string(), token0: pool(12), token1: pool(13) },
    ];
    let lookups = vec![
        vec![Some(pool(20)), None, Some(pool(21))],
        vec![Some(pool(22)), Some(pool(23)), Some(pool(24))],
    ];
    let r = resolve_all_pools(&dexes, &pairs, &lookups);
    assert_eq!(r.len(), 2);
    assert_eq!(r[0].label, "X/Y");
    let names: Vec<&str> = r[0].pools.iter().map(|p| p.0.as_str()).collect();
    assert_eq!(names, vec!["a", "c"]);
    assert_eq!(r[0].routers[1].1.bytes, pool(103).bytes);
    assert_eq!(r[1].pools.len(), 3);
    let single = resolve_pair(&dexes, &pairs[0], &vec![None, None, Some(pool(5))]);
    assert!(single.is_none());
}

fn pair_with_routers(label: &str, routers: Vec<(&str, u8)>) -> TrackedPair {
    TrackedPair {
        label: label.to_string(),
        pools: vec![],
        token0: pool(1),
        token1: pool(2),
        routers: routers.into_iter().map(|(n, b)| (n.to_string(), pool(b))).collect(),
    }
}

#[test]
fn router_lookup_takes_first_match() {
    let pairs = vec![
        pair_with_routers("A/B", vec![("uni", 1)]),
        pair_with_routers("C/D", vec![("sushi", 2), ("uni", 3), ("sushi", 4)]),
    ];
    assert_eq!(router_for_dex(&pairs, "uni").unwrap().bytes, pool(1).bytes);
    assert_eq!(router_for_dex(&pairs, "sushi").unwrap().bytes, pool(2).bytes);
    assert!(router_for_dex(&pairs, "curve").is_none());
    assert_eq!(find_pair(&pairs, "C/D"), Some(1));
    assert_eq!(find_pair(&pairs, "E/F"), None);
}

#[test]
fn probe_and_round_trip() {
    assert_eq!(probe_amount(0), 1_000);
    assert_eq!(probe_amount(6), 1_000_000_000);
    assert_eq!(probe_amount(18), 1_000 * 10u128.pow(18));
    assert_eq!(probe_amount(35), 1_000 * 10u128.pow(35));
    assert!(round_trip_profitable(1_000, 1_001));
    assert!(!round_trip_profitable(1_000, 1_000));
    assert!(!round_trip_profitable(1_000, 999));
}

#[test]
fn consensus_rule() {
    let p = consensus_block_number(Some(100), Some(101)).unwrap();
    assert_eq!((p.a, p.b), (100, 101));
    let q = consensus_block_number(Some(101), Some(100)).unwrap();
    assert_eq!((q.a, q.b), (101, 100));
    assert!(consensus_block_number(Some(100), Some(102)).is_none());
    assert!(consensus_block_number(Some(100), None).is_none());
    assert!(consensus_block_number(None, Some(100)).is_none());
    assert!(consensus_block_number(None, None).is_none());
    assert!(consensus_possible(2));
    assert!(!consensus_possible(1));
}

#[test]
fn endpoint_benching() {
    let mut streak = 0;
    for _ in 0..2 {
        streak = next_consecutive_failures(streak, false);
    }
    assert!(!is_benched(streak));
    streak = next_consecutive_failures(streak, false);
    assert_eq!(streak, 3);
    assert!(is_benched(streak));
    streak = next_consecutive_failures(streak, true);
    assert_eq!(streak, 0);
    assert!(!is_benched(streak));
}

fn cfg_with_polygon(feed: Option<&str>) -> AddressesConfig {
    AddressesConfig {
        amoy: None,
        polygon: Some(NetworkConfig { chainlink_feed: feed.map(|s| s.to_string()) }),
        arbitrum: None,
        base: None,
    }
}

#[test]
fn feed_selection() {
    let default = matic_usd_feed_address();
    assert_eq!(default.bytes, addr("0xAB594600376Ec9fD91F8e885dADF0CE036862dE0").bytes);
    let feed = "0x0000000000000000000000000000000000000abc";
    let cfg = cfg_with_polygon(Some(feed));
    assert_eq!(feed_for_chain(&cfg, 137).bytes, addr(feed).bytes);
    // other chains, a missing feed or an invalid feed fall back to the default
    assert_eq!(feed_for_chain(&cfg, 42161).bytes, default.bytes);
    assert_eq!(feed_for_chain(&cfg, 1).bytes, default.bytes);
    assert_eq!(feed_for_chain(&cfg_with_polygon(None), 137).bytes, default.bytes);
    assert_eq!(feed_for_chain(&cfg_with_polygon(Some("not an address")), 137).bytes, default.bytes);
}

#[test]
fn price_cache_and_staleness() {
    assert!(cache_is_fresh(100, 96, PRICE_CACHE_TTL_SECS));
    assert!(!cache_is_fresh(105, 100, PRICE_CACHE_TTL_SECS));
    assert!(cache_is_fresh(90, 100, PRICE_CACHE_TTL_SECS));
    assert!(!cache_is_fresh(100, 100, 0));
    assert!(!answer_is_stale(4_600, 1_000, 3_600));
    assert!(answer_is_stale(4_601, 1_000, 3_600));
    assert!(!answer_is_stale(10, 1_000, 3_600));
}

fn quote(dex: &str, last: u8, r0: u128) -> sharklet::scanner::PoolQuote {
    sharklet::scanner::PoolQuote {
        dex_name: dex.to_string(),
        pool: pool(last),
        reserve_token0: r0,
        reserve_token1: 2 * r0,
        token0: pool(1),
        token1: pool(2),
    }
}

#[test]
fn quote_cache_serves_fresh_quotes() {
    let mut c = sharklet::scanner::QuoteCache::new(2_000);
    assert!(c.lookup("quickswap", &pool(7), 0).is_none());
    c.store(quote("quickswap", 7, 100), 1_000);
    let hit = c.lookup("quickswap", &pool(7), 2_999).unwrap();
    assert_eq!(hit.reserve_token0, 100);
    assert_eq!(hit.reserve_token1, 200);
    assert!(c.lookup("quickswap", &pool(7), 3_000).is_none());
    assert!(c.lookup("sushiswap", &pool(7), 1_500).is_none());
    assert!(c.lookup("quickswap", &pool(8), 1_500).is_none());
}

#[test]
fn quote_cache_replaces_same_pool() {
    let mut c = sharklet::scanner::QuoteCache::new(2_000);
    c.store(quote("quickswap", 7, 100), 1_000);
    c.store(quote("sushiswap", 9, 50), 1_100);
    c.store(quote("quickswap", 7, 300), 5_000);
    assert_eq!(c.entries.len(), 2);
    assert_eq!(c.lookup("quickswap", &pool(7), 5_500).unwrap().reserve_token0, 300);
    assert_eq!(c.lookup("sushiswap", &pool(9), 2_000).unwrap().reserve_token0, 50);
    assert!(c.lookup("sushiswap", &pool(9), 3_100).is_none());
}
