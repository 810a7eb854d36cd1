//! Configuration the shard process computes before it connects its backing
//! store: which entity kinds the store keeps, and how its connection pool is
//! sized. Reading the environment and opening the connections stay outside
//! this library.

use vstd::prelude::*;

verus! {

/// Which entity kinds the shard's backing store keeps.
#[derive(Debug, Clone, Copy, PartialEq, Eq)]
pub struct CacheSettings {
    pub users: bool,
    pub guilds: bool,
    pub members: bool,
    pub channels: bool,
    pub roles: bool,
    pub emojis: bool,
    pub voice_states: bool,
}

/// The shard keeps guilds, channels and roles, and nothing else.
pub fn sharder_cache_settings() -> (r: CacheSettings)
    ensures
        r == (CacheSettings {
            users: false,
            guilds: true,
            members: false,
            channels: true,
            roles: true,
            emojis: false,
            voice_states: false,
        }),
{
    CacheSettings {
        users: false,
        guilds: true,
        members: false,
        channels: true,
        roles: true,
        emojis: false,
        voice_states: false,
    }
}

/// Minimum and maximum connections for a pool serving `threads` workers:
/// the pool is pinned to exactly one connection per worker.
pub fn pool_connection_bounds(threads: u32) -> (r: (u32, u32))
    ensures
        r.0 == threads,
        r.1 == threads,
{
    (threads, threads)
}

} // verus!
