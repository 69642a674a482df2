use vstd::prelude::*;

verus! {

/// What the process is told once at startup.
#[derive(Debug)]
pub struct Config {
    /// The authorization credential sent with every remote update.
    pub token: String,
    /// The nickname template; its parenthesized identifier is replaced by
    /// the resolved progress count.
    pub nickname: String,
    /// The remote targets, one update per target per computed nickname.
    pub servers: Vec<u64>,
    /// The directory whose documents are aggregated and watched.
    pub advancements_dir: String,
}

} // verus!
