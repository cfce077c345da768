use l2_order_book::config::{Config, ConfigError, ExchangeConfig, Provider, ProviderConfig};

#[test]
fn test_merge_configs() {
    let mut file_config = Config {
        exchange: ExchangeConfig {
            depth_limit: Some(5),
            instrument: Some("BTC-ETH".to_string()),
        },
        provider: ProviderConfig { name: Some(Provider::Deribit) },
    };

    let env_config = Config {
        exchange: ExchangeConfig {
            depth_limit: Some(10),
            instrument: Some("BTC-USD".to_string()),
        },
        provider: ProviderConfig { name: None },
    };

    file_config.merge(env_config);

    let expected = Config {
        exchange: ExchangeConfig {
            depth_limit: Some(10),
            instrument: Some("BTC-USD".to_string()),
        },
        provider: ProviderConfig { name: Some(Provider::Deribit) },
    };

    assert_eq!(file_config, expected);
}

#[test]
fn merge_keeps_fields_the_other_source_leaves_unset() {
    let mut config = Config {
        exchange: ExchangeConfig {
            depth_limit: Some(20),
            instrument: Some("BTC-PERPETUAL".to_string()),
        },
        provider: ProviderConfig { name: Some(Provider::Deribit) },
    };
    config.merge(Config::default());
    assert_eq!(config.exchange.depth_limit, Some(20));
    assert_eq!(config.exchange.instrument, Some("BTC-PERPETUAL".to_string()));
    assert_eq!(config.provider.name, Some(Provider::Deribit));
}

#[test]
fn validate_accepts_a_complete_config() {
    let config = Config {
        exchange: ExchangeConfig {
            depth_limit: Some(10),
            instrument: Some("BTC-USD".to_string()),
        },
        provider: ProviderConfig { name: Some(Provider::Deribit) },
    };
    assert_eq!(config.validate(), Ok(()));
}

#[test]
fn validate_rejects_missing_instrument() {
    let config = Config {
        exchange: ExchangeConfig { depth_limit: Some(10), instrument: None },
        provider: ProviderConfig { name: Some(Provider::Deribit) },
    };
    assert_eq!(config.validate(), Err(ConfigError::MissingInstrument));
}

#[test]
fn validate_rejects_missing_depth_limit() {
    let config = Config {
        exchange: ExchangeConfig {
            depth_limit: None,
            instrument: Some("BTC-USD".to_string()),
        },
        provider: ProviderConfig { name: Some(Provider::Deribit) },
    };
    assert_eq!(config.validate(), Err(ConfigError::MissingDepthLimit));
}

#[test]
fn validate_rejects_invalid_depth_limit() {
    let config = Config {
        exchange: ExchangeConfig {
            depth_limit: Some(5),
            instrument: Some("BTC-USD".to_string()),
        },
        provider: ProviderConfig { name: Some(Provider::Deribit) },
    };
    assert_eq!(config.validate(), Err(ConfigError::InvalidDepthLimit));
}

#[test]
fn validate_rejects_missing_provider() {
    let config = Config {
        exchange: ExchangeConfig {
            depth_limit: Some(10),
            instrument: Some("BTC-USD".to_string()),
        },
        provider: ProviderConfig { name: None },
    };
    assert_eq!(config.validate(), Err(ConfigError::MissingProvider));
}

#[test]
fn provider_name_parses_case_insensitively() {
    assert_eq!(Provider::from_name("deribit"), Some(Provider::Deribit));
    assert_eq!(Provider::from_name("Deribit"), Some(Provider::Deribit));
    assert_eq!(Provider::from_name("DERIBIT"), Some(Provider::Deribit));
    assert_eq!(Provider::from_name("dErIbIt"), Some(Provider::Deribit));
}

#[test]
fn provider_name_rejects_unknown_values() {
    assert_eq!(Provider::from_name(""), None);
    assert_eq!(Provider::from_name("bitstamp"), None);
    assert_eq!(Provider::from_name("deribit2"), None);
    assert_eq!(Provider::from_name("derib"), None);
}

#[test]
fn default_config_is_fully_unset() {
    let config = Config::default();
    assert_eq!(config.exchange.depth_limit, None);
    assert_eq!(config.exchange.instrument, None);
    assert_eq!(config.provider.name, None);
    assert_eq!(config.validate(), Err(ConfigError::MissingInstrument));
}
