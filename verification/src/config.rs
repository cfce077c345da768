//! Construction-time configuration of the book and its feed.
//!
//! Values arrive from several sources (a configuration file, environment
//! variables, command-line arguments); reading those sources is the
//! caller's business.  This module holds the shapes, the merge rule that
//! ranks the sources, and the validation every configuration must pass
//! before the book is constructed.

use vstd::prelude::*;

verus! {

/// The market-data provider a feed adapter connects to.  `Unspecified`
/// stands for "no provider chosen"; validation rejects it.
#[derive(Clone, Copy, Debug, PartialEq, Eq, Structural)]
pub enum Provider {
    Unspecified,
    Deribit,
}

/// `s` spells the provider name "deribit", ASCII case-insensitively.
pub open spec fn spells_deribit(s: Seq<char>) -> bool {
    &&& s.len() == 7
    &&& (s[0] == 'd' || s[0] == 'D')
    &&& (s[1] == 'e' || s[1] == 'E')
    &&& (s[2] == 'r' || s[2] == 'R')
    &&& (s[3] == 'i' || s[3] == 'I')
    &&& (s[4] == 'b' || s[4] == 'B')
    &&& (s[5] == 'i' || s[5] == 'I')
    &&& (s[6] == 't' || s[6] == 'T')
}

impl Provider {
    /// Parse a provider name, ASCII case-insensitively.  Only "deribit"
    /// names a provider; any other string is rejected so that no invalid
    /// textual value reaches the engine's surroundings.
    pub fn from_name(s: &str) -> (r: Option<Provider>)
        ensures
            r is Some <==> spells_deribit(s@),
            r is Some ==> r == Some(Provider::Deribit),
    {
        if s.unicode_len() != 7 {
            return None;
        }
        let c0 = s.get_char(0);
        let c1 = s.get_char(1);
        let c2 = s.get_char(2);
        let c3 = s.get_char(3);
        let c4 = s.get_char(4);
        let c5 = s.get_char(5);
        let c6 = s.get_char(6);
        if (c0 == 'd' || c0 == 'D') && (c1 == 'e' || c1 == 'E') && (c2 == 'r' || c2 == 'R') && (c3
            == 'i' || c3 == 'I') && (c4 == 'b' || c4 == 'B') && (c5 == 'i' || c5 == 'I') && (c6
            == 't' || c6 == 'T') {
            Some(Provider::Deribit)
        } else {
            None
        }
    }
}

/// What the exchange feed should serve: the traded instrument and the
/// book depth to subscribe at.
#[derive(Clone, Debug, PartialEq)]
pub struct ExchangeConfig {
    pub depth_limit: Option<usize>,
    pub instrument: Option<String>,
}

/// Which provider to connect to.
#[derive(Clone, Copy, Debug, PartialEq, Eq, Structural)]
pub struct ProviderConfig {
    pub name: Option<Provider>,
}

/// The full configuration, possibly partial until every source has been
/// merged in.
#[derive(Clone, Debug, PartialEq)]
pub struct Config {
    pub exchange: ExchangeConfig,
    pub provider: ProviderConfig,
}

/// A depth limit the feed can serve: one of its depth tiers.
pub open spec fn valid_depth_limit(d: usize) -> bool {
    d == 1 || d == 10 || d == 20
}

/// Why a configuration cannot be used.
#[derive(Clone, Copy, Debug, PartialEq, Eq, Structural)]
pub enum ConfigError {
    /// No instrument was specified by any source.
    MissingInstrument,
    /// No depth limit was specified by any source.
    MissingDepthLimit,
    /// The specified depth limit is not one of the feed's depth tiers.
    InvalidDepthLimit,
    /// No provider was specified by any source.
    MissingProvider,
}

impl Config {
    /// Every field required to run is present and usable.
    pub open spec fn is_valid(&self) -> bool {
        &&& self.exchange.instrument is Some
        &&& self.exchange.depth_limit is Some
        &&& valid_depth_limit(self.exchange.depth_limit->0)
        &&& self.provider.name is Some
    }

    /// Merge another configuration into this one, giving priority to the
    /// other's values: any field the other source sets wins, any field it
    /// leaves unset keeps the value already held.
    pub fn merge(&mut self, other: Config)
        ensures
            final(self).exchange.depth_limit == (if other.exchange.depth_limit is Some {
                other.exchange.depth_limit
            } else {
                old(self).exchange.depth_limit
            }),
            final(self).exchange.instrument == (if other.exchange.instrument is Some {
                other.exchange.instrument
            } else {
                old(self).exchange.instrument
            }),
            final(self).provider.name == (if other.provider.name is Some {
                other.provider.name
            } else {
                old(self).provider.name
            }),
    {
        if let Some(depth_limit) = other.exchange.depth_limit {
            self.exchange.depth_limit = Some(depth_limit);
        }
        if let Some(instrument) = other.exchange.instrument {
            self.exchange.instrument = Some(instrument);
        }
        if let Some(name) = other.provider.name {
            self.provider.name = Some(name);
        }
    }

    /// Check that every required field is present and usable.  The first
    /// violation — in the order instrument missing, depth limit missing,
    /// depth limit invalid, provider missing — is reported; a caller that
    /// cannot run without a valid configuration fails on the error.
    pub fn validate(&self) -> (r: Result<(), ConfigError>)
        ensures
            r is Ok <==> self.is_valid(),
            r == Err::<(), ConfigError>(ConfigError::MissingInstrument) <==> self.exchange.instrument is None,
            r == Err::<(), ConfigError>(ConfigError::MissingDepthLimit) <==> self.exchange.instrument is Some
                && self.exchange.depth_limit is None,
            r == Err::<(), ConfigError>(ConfigError::InvalidDepthLimit) <==> self.exchange.instrument is Some
                && self.exchange.depth_limit is Some && !valid_depth_limit(
                self.exchange.depth_limit->0,
            ),
            r == Err::<(), ConfigError>(ConfigError::MissingProvider) <==> self.exchange.instrument is Some
                && self.exchange.depth_limit is Some && valid_depth_limit(
                self.exchange.depth_limit->0,
            ) && self.provider.name is None,
    {
        if self.exchange.instrument.is_none() {
            return Err(ConfigError::MissingInstrument);
        }
        match self.exchange.depth_limit {
            None => {
                return Err(ConfigError::MissingDepthLimit);
            },
            Some(d) => {
                if !(d == 1 || d == 10 || d == 20) {
                    return Err(ConfigError::InvalidDepthLimit);
                }
            },
        }
        if self.provider.name.is_none() {
            return Err(ConfigError::MissingProvider);
        }
        Ok(())
    }
}

impl Default for Config {
    /// A configuration with every field unset, the starting point of the
    /// source merge.
    fn default() -> (c: Self)
        ensures
            c.exchange.depth_limit is None,
            c.exchange.instrument is None,
            c.provider.name is None,
    {
        Config {
            exchange: ExchangeConfig { depth_limit: None, instrument: None },
            provider: ProviderConfig { name: None },
        }
    }
}

} // verus!
