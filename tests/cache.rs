use cade::cache::Cache;
use cade::compression::{compress, decompress};
use cade::provider::CacheProvider;
use cade::config::{CacheAccess, CacheConfig, FilesystemConfig, RedisConfig, WrapperConfig};

fn fs_config(path: &str) -> CacheConfig {
    CacheConfig::Filesystem(FilesystemConfig {
        path: path.to_string(),
        access: CacheAccess::ReadWrite,
        update_on_hit: true,
        test_if_update_is_required: true,
    })
}

fn redis_config(url: &str) -> CacheConfig {
    CacheConfig::Redis(RedisConfig {
        url: url.to_string(),
        expire: Some(60),
        access: CacheAccess::ReadWrite,
        update_on_hit: true,
        test_if_update_is_required: true,
    })
}

fn config(cache: Vec<CacheConfig>) -> WrapperConfig {
    WrapperConfig { base_dir: None, cache, debug: false, panic_on_cache_content_mismatch: false, log: None }
}

fn lookup(cache: &Cache, stores: &mut Vec<Option<Vec<u8>>>, pin: Option<usize>) -> Option<(Vec<u8>, usize)> {
    cache.get_entry(stores, pin)
}

fn store(cache: &Cache, stores: &mut Vec<Option<Vec<u8>>>, data: &Vec<u8>) {
    let (c, _) = cache.set_entry(data);
    cache.update_all_entry(stores, &c);
}

#[test]
fn compression_round_trips() {
    for p in [vec![], b"int x;".to_vec(), vec![0u8; 10000], (0..=255u8).collect::<Vec<u8>>()] {
        let c = compress(&p).unwrap();
        assert_eq!(decompress(&c).unwrap(), p);
    }
}

#[test]
fn compression_changes_the_bytes() {
    let p = b"int x;".to_vec();
    assert_ne!(compress(&p).unwrap(), p);
}

#[test]
fn garbage_does_not_decompress() {
    assert!(decompress(&vec![0xFF, 0xFF, 0xFF]).is_none());
}

#[test]
fn no_providers_means_no_cache() {
    assert!(Cache::new(&config(vec![])).is_none());
}

#[test]
fn providers_get_ids_by_position() {
    let c = Cache::new(&config(vec![fs_config("/c"), redis_config("redis://h")])).unwrap();
    assert_eq!(c.providers.len(), 2);
    assert_eq!(c.providers[0].get_id(), 0);
    assert_eq!(c.providers[1].get_id(), 1);
}

#[test]
fn set_then_get_returns_the_payload() {
    let c = Cache::new(&config(vec![fs_config("/a"), fs_config("/b")])).unwrap();
    let mut stores = vec![None, None];
    let v = b"object bytes".to_vec();
    store(&c, &mut stores, &v);
    assert!(stores.iter().all(|s| s.is_some()));
    assert_eq!(lookup(&c, &mut stores, None), Some((v, 0)));
}

#[test]
fn repeated_set_then_get_returns_the_payload() {
    let c = Cache::new(&config(vec![fs_config("/a")])).unwrap();
    let mut stores = vec![None];
    let v = b"same".to_vec();
    for _ in 0..3 {
        store(&c, &mut stores, &v);
    }
    assert_eq!(lookup(&c, &mut stores, None).unwrap().0, v);
}

#[test]
fn hit_in_second_provider_is_promoted_to_first() {
    let c = Cache::new(&config(vec![fs_config("/c"), redis_config("redis://h")])).unwrap();
    let v = b"obj".to_vec();
    let compressed = compress(&v).unwrap();
    let mut stores = vec![None, Some(compressed.clone())];
    let (plain, hit) = lookup(&c, &mut stores, None).unwrap();
    assert_eq!(plain, v);
    assert_eq!(hit, 1);
    assert_eq!(stores[0], Some(compressed));
}

#[test]
fn hit_in_first_provider_is_promoted_to_second() {
    let c = Cache::new(&config(vec![fs_config("/a"), fs_config("/b")])).unwrap();
    let compressed = compress(&b"x".to_vec()).unwrap();
    let mut stores = vec![Some(compressed.clone()), None];
    assert_eq!(lookup(&c, &mut stores, None).unwrap().1, 0);
    assert_eq!(stores[1], Some(compressed));
}

#[test]
fn corrupt_entry_is_healed_from_the_next_provider() {
    let c = Cache::new(&config(vec![fs_config("/a"), redis_config("redis://h")])).unwrap();
    let v = b"good".to_vec();
    let compressed = compress(&v).unwrap();
    let mut stores = vec![Some(vec![0xFF, 0xFF, 0xFF]), Some(compressed.clone())];
    assert_eq!(lookup(&c, &mut stores, None), Some((v, 1)));
    assert_eq!(stores[0], Some(compressed));
}

#[test]
fn corrupt_entry_forces_promotion_past_the_existence_test() {
    let c = Cache::new(&config(vec![fs_config("/a"), fs_config("/b"), fs_config("/c")])).unwrap();
    let good = compress(&b"new".to_vec()).unwrap();
    let other = compress(&b"old".to_vec()).unwrap();
    let mut stores = vec![Some(vec![1, 2, 3]), Some(good.clone()), Some(other)];
    lookup(&c, &mut stores, None).unwrap();
    assert_eq!(stores[2], Some(good));
}

#[test]
fn existing_entry_is_not_rewritten_when_tested() {
    let c = Cache::new(&config(vec![fs_config("/a"), fs_config("/b")])).unwrap();
    let first = compress(&b"one".to_vec()).unwrap();
    let second = compress(&b"two".to_vec()).unwrap();
    let mut stores = vec![Some(first), Some(second.clone())];
    lookup(&c, &mut stores, None).unwrap();
    assert_eq!(stores[1], Some(second));
}

#[test]
fn pinned_lookup_reads_only_that_provider() {
    let c = Cache::new(&config(vec![fs_config("/a"), fs_config("/b")])).unwrap();
    let compressed = compress(&b"out".to_vec()).unwrap();
    let mut stores = vec![Some(compressed.clone()), None];
    assert_eq!(lookup(&c, &mut stores, Some(1)), None);
    assert_eq!(lookup(&c, &mut stores, Some(0)).unwrap().1, 0);
}

#[test]
fn providers_without_update_are_not_written() {
    let mut cfg = config(vec![fs_config("/a"), fs_config("/b")]);
    if let CacheConfig::Filesystem(f) = &mut cfg.cache[1] {
        f.update_on_hit = false;
    }
    let c = Cache::new(&cfg).unwrap();
    let mut stores = vec![None, None];
    store(&c, &mut stores, &b"v".to_vec());
    assert!(stores[0].is_some());
    assert!(stores[1].is_none());
}

#[test]
fn lz4_round_trips() {
    for p in [vec![], b"int x;".to_vec(), vec![7u8; 100000]] {
        let c = cade::compression::lz4::compress(&p).unwrap();
        assert_ne!(c, p);
        assert_eq!(cade::compression::lz4::decompress(&c).unwrap(), p);
    }
}

#[test]
fn lz4_rejects_garbage() {
    assert!(cade::compression::lz4::decompress(&vec![0xFFu8; 32]).is_none());
}
