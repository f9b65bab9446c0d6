//! Configuration sections and API credentials. The environment (testnet
//! or mainnet) is chosen purely by which configuration file is loaded;
//! credentials never come from those files but from the process
//! environment.

use vstd::prelude::*;

verus! {

/// `[environment]`: the environment's name.
#[derive(Debug, Clone)]
pub struct EnvironmentSection {
    pub name: String,
}

/// `[binance]`: spot and futures endpoints.
#[derive(Debug, Clone)]
pub struct BinanceConfig {
    pub spot: BinanceSpotConfig,
    pub futures: BinanceFuturesConfig,
}

/// `[binance.spot]`.
#[derive(Debug, Clone)]
pub struct BinanceSpotConfig {
    pub rest_base_url: String,
    pub ws_base_url: String,
    pub stream_base_url: String,
}

/// `[binance.futures]`.
#[derive(Debug, Clone)]
pub struct BinanceFuturesConfig {
    pub rest_base_url: String,
    pub ws_base_url: String,
}

/// `[market_data]`: which symbols to follow and how.
#[derive(Debug, Clone)]
pub struct MarketDataConfig {
    pub symbols: Vec<String>,
    pub depth_levels: u32,
    pub depth_update_speed_ms: u64,
}

/// The API key pair. It is kept out of the configuration files so that a
/// file can never leak a key into version control.
pub struct Credentials {
    pub api_key: String,
    pub api_secret: String,
}

/// Which variable of the pair was missing.
#[derive(Debug, Clone, Copy, PartialEq, Eq, Structural)]
pub enum CredentialsError {
    MissingApiKey,
    MissingApiSecret,
}

impl CredentialsError {
    /// The message the error is reported with.
    pub fn message(&self) -> (r: &'static str)
        ensures
            *self == CredentialsError::MissingApiKey ==> r@ == "BINANCE_API_KEY not set"@,
            *self == CredentialsError::MissingApiSecret ==> r@ == "BINANCE_API_SECRET not set"@,
    {
        match self {
            CredentialsError::MissingApiKey => "BINANCE_API_KEY not set",
            CredentialsError::MissingApiSecret => "BINANCE_API_SECRET not set",
        }
    }
}

impl Credentials {
    /// What `from_env` makes of the values of `BINANCE_API_KEY` and
    /// `BINANCE_API_SECRET` (`None` for a variable that is not set): the key
    /// is looked at first.
    pub fn from_env_values(api_key: Option<String>, api_secret: Option<String>) -> (r: Result<
        Credentials,
        CredentialsError,
    >)
        ensures
            api_key is None ==> r == Err::<Credentials, CredentialsError>(
                CredentialsError::MissingApiKey,
            ),
            api_key is Some && api_secret is None ==> r == Err::<Credentials, CredentialsError>(
                CredentialsError::MissingApiSecret,
            ),
            api_key is Some && api_secret is Some ==> (r matches Ok(c) && c.api_key
                == api_key->0 && c.api_secret == api_secret->0),
    {
        match api_key {
            None => Err(CredentialsError::MissingApiKey),
            Some(api_key) => match api_secret {
                None => Err(CredentialsError::MissingApiSecret),
                Some(api_secret) => Ok(Credentials { api_key, api_secret }),
            },
        }
    }
}

} // verus!
