use std::path::PathBuf;

use webproxy::cache::{configure_cache, start_client, CacheConfig, CacheMode, CacheState};

#[test]
fn test_cache_config_builder() {
    let config = CacheConfig::new()
        .enabled(true)
        .cache_dir("/tmp/my-webproxy-cache")
        .cache_mode(CacheMode::Default);

    assert!(config.enabled);
    assert_eq!(config.cache_dir, Some(PathBuf::from("/tmp/my-webproxy-cache")));
    assert!(matches!(config.cache_mode, CacheMode::Default));
}

#[test]
fn the_default_caches_without_a_directory() {
    let config = CacheConfig::default();
    assert!(config.enabled);
    assert_eq!(config.cache_dir, None);
    assert_eq!(config.cache_mode, CacheMode::Default);
    assert_eq!(CacheMode::default(), CacheMode::Default);
}

#[test]
fn each_setting_is_set_alone() {
    let config = CacheConfig::new().cache_dir("/a").enabled(false).cache_mode(CacheMode::NoStore);
    assert!(!config.enabled);
    assert_eq!(config.cache_dir, Some(PathBuf::from("/a")));
    assert_eq!(config.cache_mode, CacheMode::NoStore);
}

#[test]
fn a_directory_is_filled_in_once() {
    let config = CacheConfig::new().or_cache_dir(None);
    assert_eq!(config.cache_dir, None);
    let config = config.or_cache_dir(Some(PathBuf::from("/a")));
    assert_eq!(config.cache_dir, Some(PathBuf::from("/a")));
    let config = config.or_cache_dir(Some(PathBuf::from("/b")));
    assert_eq!(config.cache_dir, Some(PathBuf::from("/a")));
}

#[test]
fn the_client_caches_where_it_is_told() {
    let fallback = PathBuf::from("/tmp/x");
    assert_eq!(
        CacheConfig::new().client_cache(fallback.clone()),
        Some((fallback.clone(), CacheMode::Default))
    );
    assert_eq!(
        CacheConfig::new().cache_dir("/a").cache_mode(CacheMode::Reload).client_cache(fallback.clone()),
        Some((PathBuf::from("/a"), CacheMode::Reload))
    );
    assert_eq!(CacheConfig::new().enabled(false).client_cache(fallback), None);
}

#[test]
fn the_first_configuration_counts() {
    let mut state = CacheState::Unset;
    assert!(configure_cache(&mut state, CacheConfig::new().enabled(false)).is_ok());
    assert!(configure_cache(&mut state, CacheConfig::new()).unwrap_err().enabled);
    assert!(!start_client(&mut state).unwrap().enabled);
    assert!(start_client(&mut state).is_none());
}

#[test]
fn a_running_client_is_not_configured() {
    let mut state = CacheState::Unset;
    assert!(start_client(&mut state).unwrap().enabled);
    let refused = configure_cache(&mut state, CacheConfig::new().cache_dir("/a")).unwrap_err();
    assert_eq!(refused.cache_dir, Some(PathBuf::from("/a")));
    assert!(start_client(&mut state).is_none());
}
