//! The decisions of the Chainlink price oracle: which feed a chain reads,
//! when the cached price may be served, and when an on-chain answer is too
//! old to use.
//!
//! The price itself is floating point and is kept by the application.

use crate::address::{parse_address, spec_parse_address, Address};
use crate::dex_registry::AMOY_CHAIN_ID;
use vstd::prelude::*;

verus! {

/// How long a fetched price is served from the cache, in seconds.
pub const PRICE_CACHE_TTL_SECS: u64 = 5;

pub const POLYGON_CHAIN_ID: u64 = 137;

pub const ARBITRUM_CHAIN_ID: u64 = 42161;

pub const BASE_CHAIN_ID: u64 = 8453;

/// The default MATIC/USD feed on Polygon mainnet:
/// `0xAB594600376Ec9fD91F8e885dADF0CE036862dE0`.
pub open spec fn matic_usd_feed() -> Seq<u8> {
    seq![
        0xab, 0x59, 0x46, 0x00, 0x37, 0x6e, 0xc9, 0xfd, 0x91, 0xf8,
        0xe8, 0x85, 0xda, 0xdf, 0x0c, 0xe0, 0x36, 0x86, 0x2d, 0xe0,
    ]
}

/// The default MATIC/USD feed address.
pub fn matic_usd_feed_address() -> (a: Address)
    ensures
        a.bytes@ == matic_usd_feed(),
{
    let a = Address {
        bytes: [
            0xab, 0x59, 0x46, 0x00, 0x37, 0x6e, 0xc9, 0xfd, 0x91, 0xf8,
            0xe8, 0x85, 0xda, 0xdf, 0x0c, 0xe0, 0x36, 0x86, 0x2d, 0xe0,
        ],
    };
    assert(a.bytes@ =~= matic_usd_feed());
    a
}

/// One network's entry in the addresses configuration.
pub struct NetworkConfig {
    pub chainlink_feed: Option<String>,
}

/// The addresses configuration: an optional entry per network.
pub struct AddressesConfig {
    pub amoy: Option<NetworkConfig>,
    pub polygon: Option<NetworkConfig>,
    pub arbitrum: Option<NetworkConfig>,
    pub base: Option<NetworkConfig>,
}

/// The feed text configured in a network entry.
pub open spec fn network_feed(net: Option<NetworkConfig>) -> Option<Seq<char>> {
    match net {
        Some(n) => match n.chainlink_feed {
            Some(s) => Some(s@),
            None => None,
        },
        None => None,
    }
}

/// The feed text configured for `chain_id`.
pub open spec fn configured_feed(cfg: AddressesConfig, chain_id: u64) -> Option<Seq<char>> {
    if chain_id == AMOY_CHAIN_ID {
        network_feed(cfg.amoy)
    } else if chain_id == POLYGON_CHAIN_ID {
        network_feed(cfg.polygon)
    } else if chain_id == ARBITRUM_CHAIN_ID {
        network_feed(cfg.arbitrum)
    } else if chain_id == BASE_CHAIN_ID {
        network_feed(cfg.base)
    } else {
        None
    }
}

/// The feed the oracle reads on `chain_id`: the configured one when it is a
/// valid address, else the default MATIC/USD feed.
pub open spec fn spec_feed_for_chain(cfg: AddressesConfig, chain_id: u64) -> Seq<u8> {
    match configured_feed(cfg, chain_id) {
        Some(text) => match spec_parse_address(text) {
            Some(a) => a,
            None => matic_usd_feed(),
        },
        None => matic_usd_feed(),
    }
}

fn feed_text(net: &Option<NetworkConfig>) -> (r: Option<&String>)
    ensures
        match network_feed(*net) {
            Some(t) => r matches Some(s) && s@ == t,
            None => r is None,
        },
{
    match net {
        Some(n) => match &n.chainlink_feed {
            Some(s) => Some(s),
            None => None,
        },
        None => None,
    }
}

/// The feed address for `chain_id` under the configuration `cfg`, falling
/// back to the default MATIC/USD feed when the chain has no entry, the entry
/// names no feed, or the feed text is not an address.
pub fn feed_for_chain(cfg: &AddressesConfig, chain_id: u64) -> (a: Address)
    ensures
        a.bytes@ == spec_feed_for_chain(*cfg, chain_id),
{
    let text = if chain_id == AMOY_CHAIN_ID {
        feed_text(&cfg.amoy)
    } else if chain_id == POLYGON_CHAIN_ID {
        feed_text(&cfg.polygon)
    } else if chain_id == ARBITRUM_CHAIN_ID {
        feed_text(&cfg.arbitrum)
    } else if chain_id == BASE_CHAIN_ID {
        feed_text(&cfg.base)
    } else {
        None
    };
    match text {
        Some(s) => match parse_address(s.as_str()) {
            Some(a) => a,
            None => matic_usd_feed_address(),
        },
        None => matic_usd_feed_address(),
    }
}

/// Seconds from `then` to `now`, 0 when the clock reads earlier.
pub open spec fn age(now: u64, then: u64) -> int {
    if now >= then {
        now - then
    } else {
        0
    }
}

/// Whether a price cached at second `cached_at` may still be served at `now`.
pub fn cache_is_fresh(now: u64, cached_at: u64, ttl_secs: u64) -> (r: bool)
    ensures
        r == (age(now, cached_at) < ttl_secs),
{
    now.saturating_sub(cached_at) < ttl_secs
}

/// Whether an on-chain answer updated at second `updated_at` is too old at
/// `now`; the oracle then returns its fallback price.
pub fn answer_is_stale(now: u64, updated_at: u64, max_staleness_secs: u64) -> (r: bool)
    ensures
        r == (age(now, updated_at) > max_staleness_secs),
{
    now.saturating_sub(updated_at) > max_staleness_secs
}

/// A cached price is served exactly until `ttl` seconds after it was
/// fetched, and never with a zero time-to-live.
pub proof fn lemma_cache_window(now: u64, cached_at: u64, ttl: u64)
    ensures
        (age(now, cached_at) < ttl) <==> (ttl > 0 && now < cached_at + ttl),
{
}

/// Without a usable configured feed the oracle reads the default feed: on
/// chains it has no entry for, and on networks whose entry names no feed.
pub proof fn lemma_default_feed(cfg: AddressesConfig, chain_id: u64)
    requires
        configured_feed(cfg, chain_id) is None,
    ensures
        spec_feed_for_chain(cfg, chain_id) == matic_usd_feed(),
{
}

/// Chains other than Amoy, Polygon, Arbitrum and Base always read the
/// default feed, whatever the configuration says.
pub proof fn lemma_unknown_chain_default(cfg: AddressesConfig, chain_id: u64)
    requires
        chain_id != AMOY_CHAIN_ID,
        chain_id != POLYGON_CHAIN_ID,
        chain_id != ARBITRUM_CHAIN_ID,
        chain_id != BASE_CHAIN_ID,
    ensures
        spec_feed_for_chain(cfg, chain_id) == matic_usd_feed(),
{
}


/// A network entry names a feed that reads as an address.
pub open spec fn valid_feed(net: Option<NetworkConfig>, a: Seq<u8>) -> bool {
    net matches Some(n) && n.chainlink_feed matches Some(s) && spec_parse_address(s@) == Some(a)
}

/// Each known chain reads its own network's entry: a valid feed configured
/// for Amoy, Polygon, Arbitrum or Base is the feed of that chain, whatever
/// the other entries say.
pub proof fn lemma_chain_reads_own_entry(cfg: AddressesConfig, a: Seq<u8>)
    ensures
        valid_feed(cfg.amoy, a) ==> spec_feed_for_chain(cfg, AMOY_CHAIN_ID) == a,
        valid_feed(cfg.polygon, a) ==> spec_feed_for_chain(cfg, POLYGON_CHAIN_ID) == a,
        valid_feed(cfg.arbitrum, a) ==> spec_feed_for_chain(cfg, ARBITRUM_CHAIN_ID) == a,
        valid_feed(cfg.base, a) ==> spec_feed_for_chain(cfg, BASE_CHAIN_ID) == a,
{
}

/// The feed of a known chain depends on that chain's entry alone: two
/// configurations that agree on it give the same feed.
pub proof fn lemma_feed_depends_on_own_entry(c1: AddressesConfig, c2: AddressesConfig)
    ensures
        network_feed(c1.amoy) == network_feed(c2.amoy) ==> spec_feed_for_chain(c1, AMOY_CHAIN_ID)
            == spec_feed_for_chain(c2, AMOY_CHAIN_ID),
        network_feed(c1.polygon) == network_feed(c2.polygon) ==> spec_feed_for_chain(
            c1,
            POLYGON_CHAIN_ID,
        ) == spec_feed_for_chain(c2, POLYGON_CHAIN_ID),
        network_feed(c1.arbitrum) == network_feed(c2.arbitrum) ==> spec_feed_for_chain(
            c1,
            ARBITRUM_CHAIN_ID,
        ) == spec_feed_for_chain(c2, ARBITRUM_CHAIN_ID),
        network_feed(c1.base) == network_feed(c2.base) ==> spec_feed_for_chain(c1, BASE_CHAIN_ID)
            == spec_feed_for_chain(c2, BASE_CHAIN_ID),
{
}

/// An answer is stale exactly when it was updated more than
/// `max_staleness_secs` before `now`; an answer stamped in the future is
/// never stale.
pub proof fn lemma_staleness_window(now: u64, updated_at: u64, max_staleness_secs: u64)
    ensures
        (age(now, updated_at) > max_staleness_secs) <==> (now > updated_at + max_staleness_secs),
{
}

} // verus!
