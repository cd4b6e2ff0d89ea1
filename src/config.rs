//! Configuration failures and the pair table.
use vstd::prelude::*;

verus! {

/// Why the configuration could not be loaded.
#[derive(Debug, Clone, PartialEq, Eq)]
pub enum ConfigError {
    EnvVarMissing(String),
    MiddlewareInitError(String),
    TokensLoadError(String),
    UniswapPairsLoadError(String),
}

impl ConfigError {
    /// The words that introduce the failure in a message.
    pub fn prefix(&self) -> (r: &'static str)
        ensures
            *self is EnvVarMissing ==> r@ == "Missing env variable: "@,
            *self is MiddlewareInitError ==> r@ == "Middleware initialization error: "@,
            *self is TokensLoadError ==> r@ == "Tokens loading error: "@,
            *self is UniswapPairsLoadError ==> r@ == "Uniswap pairs loading error: "@,
    {
        match self {
            ConfigError::EnvVarMissing(_) => "Missing env variable: ",
            ConfigError::MiddlewareInitError(_) => "Middleware initialization error: ",
            ConfigError::TokensLoadError(_) => "Tokens loading error: ",
            ConfigError::UniswapPairsLoadError(_) => "Uniswap pairs loading error: ",
        }
    }

    /// What the failure concerns: the variable's name or the cause.
    pub fn detail(&self) -> (r: &String)
        ensures
            match *self {
                ConfigError::EnvVarMissing(s) => *r == s,
                ConfigError::MiddlewareInitError(s) => *r == s,
                ConfigError::TokensLoadError(s) => *r == s,
                ConfigError::UniswapPairsLoadError(s) => *r == s,
            },
    {
        match self {
            ConfigError::EnvVarMissing(s) => s,
            ConfigError::MiddlewareInitError(s) => s,
            ConfigError::TokensLoadError(s) => s,
            ConfigError::UniswapPairsLoadError(s) => s,
        }
    }
}

/// One entry of the pair table: two token symbols and their pool.
pub struct PairEntry {
    pub token_0: String,
    pub token_1: String,
    pub pool: ethers::types::H160,
}

/// The entry with its two tokens swapped.
pub open spec fn reversed(e: PairEntry) -> PairEntry {
    PairEntry { token_0: e.token_1, token_1: e.token_0, pool: e.pool }
}

/// Makes the pair table symmetric: after the listed entries come the same
/// entries with their tokens swapped, so that a pool is found from either
/// token. Read in order into a map, a later entry wins.
pub fn symmetric_pairs(entries: Vec<PairEntry>) -> (r: Vec<PairEntry>)
    ensures
        r@.len() == 2 * entries@.len(),
        forall|i: int| 0 <= i < entries@.len() ==> #[trigger] r@[i] == entries@[i],
        forall|i: int|
            0 <= i < entries@.len() ==> #[trigger] r@[entries@.len() + i] == reversed(entries@[i]),
{
    let mut swapped: Vec<PairEntry> = Vec::new();
    let mut i: usize = 0;
    while i < entries.len()
        invariant
            i <= entries@.len(),
            swapped@.len() == i,
            forall|j: int| 0 <= j < i ==> #[trigger] swapped@[j] == reversed(entries@[j]),
        decreases entries.len() - i,
    {
        let e = &entries[i];
        swapped.push(
            PairEntry { token_0: e.token_1.clone(), token_1: e.token_0.clone(), pool: e.pool },
        );
        i = i + 1;
    }
    let mut out = entries;
    out.append(&mut swapped);
    out
}

} // verus!
