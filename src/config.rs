//! The wrapper's configuration, as plain values.

use vstd::prelude::*;

verus! {

/// The role a provider is declared with (kept for configuration compatibility;
/// it does not change what a provider does).
#[derive(Clone, Copy, PartialEq, Eq, Debug)]
pub enum CacheAccess {
    Read,
    Write,
    ReadWrite,
}

/// A cache directory on the local filesystem.
#[derive(Debug)]
pub struct FilesystemConfig {
    pub path: String,
    pub access: CacheAccess,
    pub update_on_hit: bool,
    pub test_if_update_is_required: bool,
}

/// A remote key-value store, with an optional time-to-live in seconds.
#[derive(Debug)]
pub struct RedisConfig {
    pub url: String,
    pub expire: Option<u32>,
    pub access: CacheAccess,
    pub update_on_hit: bool,
    pub test_if_update_is_required: bool,
}

/// One configured provider.
#[derive(Debug)]
pub enum CacheConfig {
    Filesystem(FilesystemConfig),
    Redis(RedisConfig),
}

/// Where replayed output is mirrored to.
#[derive(Debug)]
pub struct LogFileConfig {
    pub path: String,
    pub append: bool,
}

#[derive(Debug)]
pub struct LogConfig {
    pub stdout: Option<LogFileConfig>,
    pub stderr: Option<LogFileConfig>,
}

#[derive(Debug)]
pub struct WrapperConfig {
    pub base_dir: Option<String>,
    pub cache: Vec<CacheConfig>,
    pub debug: bool,
    pub panic_on_cache_content_mismatch: bool,
    pub log: Option<LogConfig>,
}

/// The default of the per-provider flags.
pub fn bool_true_default() -> (r: bool)
    ensures
        r,
{
    true
}

pub fn update_on_hit_default() -> (r: bool)
    ensures
        r,
{
    true
}

pub fn debug_default() -> (r: bool)
    ensures
        !r,
{
    false
}

pub fn panic_on_cache_content_mismatch_default() -> (r: bool)
    ensures
        !r,
{
    false
}

} // verus!
