//! The configuration of the HTTP cache, and when it takes effect.

use std::path::PathBuf;

use vstd::prelude::*;

verus! {

/// `std::path::PathBuf`, which a configuration carries along.
#[verifier::external_type_specification]
#[verifier::external_body]
pub struct ExPathBuf(PathBuf);

/// The name of the directory for cached responses, below a directory for caches.
pub const CACHE_DIR_NAME: &'static str = "tauri-plugin-webproxy-cache";

/// How the cache treats requests and responses.
#[derive(Clone, Copy, Debug, PartialEq, Eq, Structural)]
pub enum CacheMode {
    /// Cached responses are used while they are fresh, and validated when they are not.
    Default,
    /// The cache is neither read nor written.
    NoStore,
    /// The cache is written but not read.
    Reload,
    /// Cached responses are validated before they are used.
    NoCache,
    /// Cached responses are used whether they are fresh or not.
    ForceCache,
    /// Cached responses are used, and nothing is requested.
    OnlyIfCached,
    /// Responses are cached whatever their headers say.
    IgnoreRules,
}

impl Default for CacheMode {
    fn default() -> (mode: Self)
        ensures
            mode == CacheMode::Default,
    {
        CacheMode::Default
    }
}

/// The configuration of the cache.
#[derive(Debug, Clone)]
pub struct CacheConfig {
    /// Whether responses are cached.
    pub enabled: bool,
    /// The directory of the cache. Without one, a directory of the application is used, or else
    /// one for temporary files.
    pub cache_dir: Option<PathBuf>,
    /// How the cache works.
    pub cache_mode: CacheMode,
}

/// The configuration that holds unless another one is given.
pub open spec fn default_config() -> CacheConfig {
    CacheConfig { enabled: true, cache_dir: None, cache_mode: CacheMode::Default }
}

impl Default for CacheConfig {
    fn default() -> (config: Self)
        ensures
            config == default_config(),
    {
        CacheConfig { enabled: true, cache_dir: None, cache_mode: CacheMode::Default }
    }
}

impl CacheConfig {
    /// The configuration that holds unless another one is given.
    pub fn new() -> (config: Self)
        ensures
            config == default_config(),
    {
        Self::default()
    }

    /// Sets the directory of the cache.
    pub fn cache_dir<P: Into<PathBuf>>(self, path: P) -> (config: Self)
        ensures
            config.enabled == self.enabled,
            config.cache_mode == self.cache_mode,
            config.cache_dir is Some,
            call_ensures(<P as Into<PathBuf>>::into, (path,), config.cache_dir->0),
    {
        let mut config = self;
        config.cache_dir = Some(path.into());
        config
    }

    /// Enables or disables the cache.
    pub fn enabled(self, enabled: bool) -> (config: Self)
        ensures
            config == (CacheConfig { enabled, ..self }),
    {
        let mut config = self;
        config.enabled = enabled;
        config
    }

    /// Sets how the cache works.
    pub fn cache_mode(self, mode: CacheMode) -> (config: Self)
        ensures
            config == (CacheConfig { cache_mode: mode, ..self }),
    {
        let mut config = self;
        config.cache_mode = mode;
        config
    }

    /// Sets the directory of the cache, unless one is set or there is none to set.
    pub fn or_cache_dir(self, fallback: Option<PathBuf>) -> (config: Self)
        ensures
            config == (CacheConfig {
                cache_dir: if self.cache_dir is Some {
                    self.cache_dir
                } else {
                    fallback
                },
                ..self
            }),
    {
        let mut config = self;
        if config.cache_dir.is_none() {
            config.cache_dir = fallback;
        }
        config
    }

    /// Where and how the client caches responses, if it does. The fallback is the directory for
    /// a configuration that has none.
    pub fn client_cache(self, fallback: PathBuf) -> (cache: Option<(PathBuf, CacheMode)>)
        ensures
            self.enabled ==> cache == Some(
                (
                    match self.cache_dir {
                        Some(dir) => dir,
                        None => fallback,
                    },
                    self.cache_mode,
                ),
            ),
            !self.enabled ==> cache is None,
    {
        if !self.enabled {
            return None;
        }
        let dir = match self.cache_dir {
            Some(dir) => dir,
            None => fallback,
        };
        Some((dir, self.cache_mode))
    }
}

/// What is known of the cache before and after the client exists.
pub enum CacheState {
    /// No configuration was given yet.
    Unset,
    /// A configuration was given, and the client does not exist yet.
    Configured(CacheConfig),
    /// The client exists.
    InUse,
}

/// A configuration is accepted: none was given, and the client does not exist.
pub open spec fn accepts_config(state: CacheState) -> bool {
    state is Unset
}

/// The state after a configuration was given.
pub open spec fn configured(state: CacheState, config: CacheConfig) -> CacheState {
    if accepts_config(state) {
        CacheState::Configured(config)
    } else {
        state
    }
}

/// The configuration of a client that is made in this state: the given one, or else the default
/// one. There is none if the client exists.
pub open spec fn client_config(state: CacheState) -> Option<CacheConfig> {
    match state {
        CacheState::Unset => Some(default_config()),
        CacheState::Configured(config) => Some(config),
        CacheState::InUse => None,
    }
}

/// The client gets the first configuration that was given before it existed. Later ones are
/// refused, and so are all once the client exists.
pub proof fn first_configuration_wins(first: CacheConfig, second: CacheConfig)
    ensures
        client_config(CacheState::Unset) == Some(default_config()),
        accepts_config(CacheState::Unset),
        client_config(configured(CacheState::Unset, first)) == Some(first),
        !accepts_config(configured(CacheState::Unset, first)),
        client_config(configured(configured(CacheState::Unset, first), second)) == Some(first),
        !accepts_config(CacheState::InUse),
        configured(CacheState::InUse, second) == CacheState::InUse,
        client_config(CacheState::InUse) is None,
{
}

/// Configures the cache before the client exists. The configuration comes back if there is one
/// already or if the client exists.
pub fn configure_cache(state: &mut CacheState, config: CacheConfig) -> (outcome: Result<
    (),
    CacheConfig,
>)
    ensures
        *final(state) == configured(*old(state), config),
        outcome == if accepts_config(*old(state)) {
            Ok::<(), CacheConfig>(())
        } else {
            Err::<(), CacheConfig>(config)
        },
{
    match state {
        CacheState::Unset => {
            *state = CacheState::Configured(config);
            Ok(())
        },
        _ => Err(config),
    }
}

/// The configuration for the client, which exists from now on.
pub fn start_client(state: &mut CacheState) -> (config: Option<CacheConfig>)
    ensures
        *final(state) == CacheState::InUse,
        config == client_config(*old(state)),
{
    let mut before = CacheState::InUse;
    std::mem::swap(&mut before, state);
    match before {
        CacheState::Unset => Some(CacheConfig::default()),
        CacheState::Configured(config) => Some(config),
        CacheState::InUse => None,
    }
}

} // verus!
