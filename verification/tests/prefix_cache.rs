//! Prefix cache.
use candle_core::{Device, Tensor};
use crane_oai::prefix_cache::{common_prefix_len, PrefixCache};
use crane_oai::tensors::LayerKvCaches;


fn caches(seq_len: usize) -> LayerKvCaches {
    let tensor =
        Tensor::zeros((1, 1, seq_len, 2), candle_core::DType::F32, &Device::Cpu).unwrap();
    vec![Some((tensor.clone(), tensor))]
}

#[test]
fn common_prefix_stops_at_first_difference() {
    assert_eq!(common_prefix_len(&[1, 2, 3, 4], &[1, 2, 9, 4]), 2);
}

#[test]
fn lookup_uses_longest_prefix_and_never_entire_prompt() {
    let mut cache = PrefixCache::new(true, 2, 4, 1 << 20);
    cache.insert(&[1, 2], &caches(4)).unwrap();
    cache.insert(&[1, 2, 3], &caches(4)).unwrap();
    assert_eq!(cache.lookup(&[1, 2, 3, 4]).unwrap().0, 3);
    // The entire three-token entry is ineligible without cached logits,
    // so lookup safely falls back to the shorter two-token entry.
    assert_eq!(cache.lookup(&[1, 2, 3]).unwrap().0, 2);
}

#[test]
fn insertion_honors_entry_limit() {
    let mut cache = PrefixCache::new(true, 2, 1, 1 << 20);
    cache.insert(&[1, 2], &caches(3)).unwrap();
    cache.insert(&[4, 5], &caches(3)).unwrap();
    assert_eq!(cache.len(), 1);
    assert!(cache.lookup(&[1, 2, 3]).is_none());
    assert!(cache.lookup(&[4, 5, 6]).is_some());
}

#[test]
fn short_or_disabled_prefixes_are_not_kept() {
    let mut cache = PrefixCache::new(true, 3, 4, 1 << 20);
    assert!(!cache.insert(&[1, 2], &caches(4)).unwrap());
    assert!(cache.insert(&[1, 2, 3], &caches(4)).unwrap());
    let mut off = PrefixCache::new(false, 1, 4, 1 << 20);
    assert!(!off.enabled());
    assert!(!off.insert(&[1, 2, 3], &caches(4)).unwrap());
    assert!(off.lookup(&[1, 2, 3, 4]).is_none());
}

#[test]
fn cached_prefix_is_cut_to_its_tokens() {
    let mut cache = PrefixCache::new(true, 2, 4, 1 << 20);
    cache.insert(&[1, 2], &caches(5)).unwrap();
    let (tokens, found) = cache.lookup(&[1, 2, 7]).unwrap();
    assert_eq!(tokens, 2);
    assert_eq!(found[0].as_ref().unwrap().0.dims(), &[1, 1, 2, 2]);
    assert_eq!(cache.used_bytes(), 2 * (2 * 2 * 4));
}

#[test]
fn least_recently_used_prefix_goes_first() {
    let mut cache = PrefixCache::new(true, 2, 2, 1 << 20);
    cache.insert(&[1, 2], &caches(2)).unwrap();
    cache.insert(&[3, 4], &caches(2)).unwrap();
    assert!(cache.lookup(&[1, 2, 9]).is_some());
    cache.insert(&[5, 6], &caches(2)).unwrap();
    assert!(cache.lookup(&[3, 4, 9]).is_none());
    assert!(cache.lookup(&[1, 2, 9]).is_some());
    assert_eq!(cache.len(), cache.max_entries());
}

#[test]
fn prefixes_stay_within_their_bytes() {
    let mut cache = PrefixCache::new(true, 2, 8, 70);
    cache.insert(&[1, 2], &caches(2)).unwrap();
    cache.insert(&[3, 4], &caches(2)).unwrap();
    cache.insert(&[5, 6], &caches(2)).unwrap();
    assert!(cache.used_bytes() <= cache.max_bytes());
    assert_eq!(cache.len(), 2);
}

#[test]
fn caches_of_another_rank_are_refused() {
    let mut cache = PrefixCache::new(true, 2, 4, 1 << 20);
    let flat = Tensor::zeros((2, 3), candle_core::DType::F32, &Device::Cpu).unwrap();
    let mut layers = caches(3);
    layers.push(Some((flat.clone(), flat)));
    assert!(cache.insert(&[1, 2], &layers).is_err());
    assert_eq!((cache.len(), cache.used_bytes()), (0, 0));
    assert!(!cache.insert(&[1], &layers).unwrap());
}

#[test]
fn used_bytes_are_those_of_the_entries_without_a_limit() {
    let mut cache = PrefixCache::new(true, 2, 8, u64::MAX);
    cache.insert(&[1, 2], &caches(2)).unwrap();
    cache.insert(&[3, 4, 5], &caches(3)).unwrap();
    assert_eq!(cache.used_bytes(), 2 * (2 * 2 * 4) + 2 * (3 * 2 * 4));
    assert!(cache.len() <= cache.max_entries());
}
