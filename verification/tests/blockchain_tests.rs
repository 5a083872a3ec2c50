use graph_core::blockchain::{BlockchainKind, BlockchainMap, ChainStoreBlock, NoopDecoderHook};
use graph_core::env_mappings::{
    validate_ipfs_cache_location, EnvVarsMapping, InnerMappingHandlers, PathFacts,
};
use graph_core::ipfs::{plan_clients, use_first_valid_api, ApiProbe, ApiSelection, ClientArrangement};
use graph_core::strutil::{has_prefix, parse_i64_radix, str_eq, u64_to_dec_string};

#[test]
fn kind_names_round_trip() {
    for kind in [BlockchainKind::Ethereum, BlockchainKind::Near, BlockchainKind::Substreams] {
        assert_eq!(BlockchainKind::from_str(kind.as_str()).unwrap(), kind);
    }
    assert_eq!(BlockchainKind::from_str("subgraph").unwrap(), BlockchainKind::Ethereum);
    assert!(BlockchainKind::from_str("bitcoin").is_err());
}

#[test]
fn manifest_kind_is_read_before_the_slash() {
    assert_eq!(
        BlockchainKind::from_manifest_kind(Some("ethereum/contracts")).unwrap(),
        BlockchainKind::Ethereum
    );
    assert_eq!(BlockchainKind::from_manifest_kind(Some("near")).unwrap(), BlockchainKind::Near);
    assert!(BlockchainKind::from_manifest_kind(Some("bogus/x")).is_err());
    assert!(BlockchainKind::from_manifest_kind(None).is_err());
}

#[test]
fn chain_store_block_formats_and_reads_its_timestamp() {
    let b = ChainStoreBlock::new(1234, serde_json::Value::Null);
    assert_eq!(b.timestamp_str(), "1234");
    assert_eq!(b.timestamp(), 1234);

    let b = ChainStoreBlock::new(-5, serde_json::Value::Null);
    assert_eq!(b.timestamp_str(), "-5");
    assert_eq!(b.timestamp(), -5);

    let b = ChainStoreBlock::from_stored("0x10".to_string(), serde_json::Value::Null);
    assert_eq!(b.timestamp(), 16);

    // Text that is no number at all reads as zero.
    let b = ChainStoreBlock::from_stored("noon".to_string(), serde_json::Value::Null);
    assert_eq!(b.timestamp(), 0);
    let b = ChainStoreBlock::from_stored("0x".to_string(), serde_json::Value::Null);
    assert_eq!(b.timestamp(), 0);
}

#[test]
fn parsing_integers_by_radix() {
    assert_eq!(parse_i64_radix("ff", 16), Some(255));
    assert_eq!(parse_i64_radix("0", 10), Some(0));
    assert_eq!(parse_i64_radix("+42", 10), Some(42));
    assert_eq!(parse_i64_radix("-42", 10), Some(-42));
    assert_eq!(parse_i64_radix("9223372036854775807", 10), Some(i64::MAX));
    assert_eq!(parse_i64_radix("9223372036854775808", 10), None);
    assert_eq!(parse_i64_radix("-9223372036854775808", 10), Some(i64::MIN));
    assert_eq!(parse_i64_radix("-9223372036854775809", 10), None);
    assert_eq!(parse_i64_radix("", 10), None);
    assert_eq!(parse_i64_radix("-", 10), None);
    assert_eq!(parse_i64_radix("12a", 10), None);
}

#[test]
fn text_helpers_compare_by_characters() {
    assert!(str_eq("abc", "abc"));
    assert!(!str_eq("abc", "abd"));
    assert!(has_prefix("redis://host", "redis://"));
    assert!(!has_prefix("http://host", "redis://"));
    assert!(!has_prefix("red", "redis://"));
    assert_eq!(u64_to_dec_string(0), "0");
    assert_eq!(u64_to_dec_string(90217), "90217");
}

#[test]
fn registry_keys_handles_by_kind_and_network() {
    let mut map: BlockchainMap<u32> = BlockchainMap::new();
    map.insert(BlockchainKind::Ethereum, "mainnet".to_string(), 1);
    map.insert(BlockchainKind::Ethereum, "sepolia".to_string(), 2);
    map.insert(BlockchainKind::Near, "mainnet".to_string(), 3);

    assert_eq!(map.get(BlockchainKind::Ethereum, "mainnet"), Some(&1));
    assert_eq!(map.get(BlockchainKind::Near, "mainnet"), Some(&3));
    assert_eq!(map.get(BlockchainKind::Substreams, "mainnet"), None);

    // Re-registering a key replaces its handle.
    map.insert(BlockchainKind::Ethereum, "mainnet".to_string(), 9);
    assert_eq!(map.get(BlockchainKind::Ethereum, "mainnet"), Some(&9));
    assert_eq!(map.iter().len(), 3);

    let eth: Vec<&u32> = map.get_all_by_kind(BlockchainKind::Ethereum);
    assert_eq!(eth, vec![&9, &2]);
    let sub: Vec<&u32> = map.get_all_by_kind(BlockchainKind::Substreams);
    assert!(sub.is_empty());
}

#[test]
fn noop_decoder_hook_passes_triggers_through() {
    let hook = NoopDecoderHook;
    let triggers = vec![1, 2, 3];
    assert_eq!(hook.after_decode(triggers.clone()), triggers);
}

#[test]
fn cache_location_validation() {
    // Redis locations pass through; they are checked later.
    let r = validate_ipfs_cache_location("redis://host:6379".to_string(), None);
    assert_eq!(r.unwrap(), "redis://host:6379");

    // A path that cannot be resolved is refused.
    assert!(validate_ipfs_cache_location("/missing".to_string(), None).is_err());

    let good = PathFacts { canonical: "/var/cache".to_string(), is_dir: true, readonly: false };
    let r = validate_ipfs_cache_location("cache".to_string(), Some(good));
    assert_eq!(r.unwrap(), "/var/cache");

    let not_dir = PathFacts { canonical: "/var/cache".to_string(), is_dir: false, readonly: false };
    assert!(validate_ipfs_cache_location("cache".to_string(), Some(not_dir)).is_err());

    let readonly = PathFacts { canonical: "/var/cache".to_string(), is_dir: true, readonly: true };
    assert!(validate_ipfs_cache_location("cache".to_string(), Some(readonly)).is_err());

    let relative = PathFacts { canonical: "var".to_string(), is_dir: true, readonly: false };
    assert!(validate_ipfs_cache_location("cache".to_string(), Some(relative)).is_err());
}

fn raw_config() -> InnerMappingHandlers {
    InnerMappingHandlers {
        entity_cache_dead_weight: false,
        entity_cache_size_in_kb: 10000,
        max_api_version: semver::Version::new(0, 0, 9),
        mapping_handler_timeout_in_secs: Some(30),
        runtime_max_stack_size: 512 * 1024,
        max_ipfs_cache_file_size: 1024 * 1024,
        max_ipfs_cache_size: 50,
        ipfs_timeout_in_secs: 60,
        max_ipfs_map_file_size: 256 * 1024 * 1024,
        max_ipfs_file_bytes: 25 * 1024 * 1024,
        ipfs_request_limit: 100,
        ipfs_max_attempts: 100000,
        ipfs_cache_location: None,
        allow_non_deterministic_ipfs: false,
        disable_declared_calls: false,
        store_errors_are_nondeterministic: false,
        fds_max_backoff_in_secs: 600,
    }
}

#[test]
fn env_conversion_scales_the_cache_size() {
    let vars: EnvVarsMapping = EnvVarsMapping::try_from(raw_config(), None).unwrap();
    assert_eq!(vars.entity_cache_size, 10_000_000);
    assert_eq!(vars.timeout_in_secs, Some(30));
    assert_eq!(vars.ipfs_timeout_in_secs, 60);
    assert_eq!(vars.max_api_version, semver::Version::new(0, 0, 9));
    assert!(vars.ipfs_cache_location.is_none());
}

#[test]
fn env_conversion_validates_the_cache_location() {
    let mut raw = raw_config();
    raw.ipfs_cache_location = Some("cache".to_string());
    assert!(EnvVarsMapping::try_from(raw, None).is_err());

    let mut raw = raw_config();
    raw.ipfs_cache_location = Some("cache".to_string());
    let facts = PathFacts { canonical: "/srv/cache".to_string(), is_dir: true, readonly: false };
    let vars = EnvVarsMapping::try_from(raw, Some(facts)).unwrap();
    assert_eq!(vars.ipfs_cache_location, Some("/srv/cache".to_string()));
}

#[test]
fn first_valid_api_wins_and_failures_stop_the_probe() {
    let probes = vec![ApiProbe::InvalidServer, ApiProbe::Valid];
    assert_eq!(use_first_valid_api(&probes), ApiSelection::Chosen(1));

    let probes = vec![ApiProbe::Valid, ApiProbe::Valid];
    assert_eq!(use_first_valid_api(&probes), ApiSelection::Chosen(0));

    let probes = vec![ApiProbe::InvalidServer, ApiProbe::Failed, ApiProbe::Valid];
    assert_eq!(use_first_valid_api(&probes), ApiSelection::Fatal(1));

    let probes = vec![ApiProbe::InvalidServer, ApiProbe::InvalidServer];
    assert_eq!(use_first_valid_api(&probes), ApiSelection::UnknownServerKind);
}

#[test]
fn client_arrangement_by_count() {
    assert_eq!(plan_clients(0), ClientArrangement::NoServers);
    assert_eq!(plan_clients(1), ClientArrangement::Single);
    assert_eq!(plan_clients(4), ClientArrangement::Pool(4));
}

#[test]
fn chain_store_data_wraps_the_block_record() {
    let b = graph_core::blockchain::ChainStoreBlock::new(77, serde_json::Value::Null);
    let d = graph_core::blockchain::ChainStoreData::new(b);
    assert_eq!(d.block.timestamp(), 77);
    assert_eq!(d.block.timestamp_str(), "77");
}
